# branch

Work on one branch across many repositories. A directory with a `branch.toml` is a workspace: the
file names the branch, and the repositories in the directory are checked out to it. `branch` sets
such directories up; `branchd` serves pages that list the pull requests in them.

What both programs decide and compute is a library that is verified with Verus:

| Module | What it does |
|--------|--------------|
| `text`, `order` | characters, lines, splitting, decimal numbers; sorting |
| `config`, `migrate` | `branch.toml`: reading, writing, finding it, adding it where it is missing |
| `remote` | remotes, the URLs of GitHub and Nix, bookmarks |
| `checkout` | the scripts by which a repository gets into a workspace |
| `discovery` | which directories are workspaces and source repositories |
| `jj`, `gh` | what jj and gh print, and what to ask them for |
| `log_view`, `focus` | logs as the pages show them |
| `escape`, `markdown`, `template`, `page`, `site` | the pages |
| `daemon` | the daemon's directories and addresses |

Contracts speak of texts as sequences of characters and of each type by its content (the types
whose names end in `View`). Proof functions whose names start with `law_` state what holds across
functions, such as that a written `branch.toml`, log or URL is read back.

Taken on trust, each behind an item that says so, are `String::push`, `String::from_utf8_lossy`, the
quoting of texts by `{:?}`, and the parser and the writer of the `toml` crate, whose documents are
read into values of `serde_json`.

`app/` holds what runs around the library: arguments, files, other programs, and the web server.
