//! Working on one branch across many repositories: workspaces, their repositories, and the pull
//! requests in them.
pub mod checkout;
pub mod config;
pub mod daemon;
pub mod discovery;
pub mod escape;
pub mod focus;
pub mod gh;
pub mod jj;
pub mod log_view;
pub mod markdown;
pub mod migrate;
pub mod order;
pub mod page;
pub mod remote;
pub mod site;
pub mod template;
pub mod text;
