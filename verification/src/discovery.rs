//! Which directories are workspaces and which hold source repositories.
//!
//! The directories themselves are read elsewhere: what comes in are listings, and `P` is whatever
//! leads back to a directory on disk.
use vstd::prelude::*;

use crate::config;
use crate::config::ConfigError;
use crate::config::ConfigErrorView;
use crate::order;
use crate::text;

verus! {

/// What manages a repository.
#[derive(Debug, Clone, Copy, PartialEq, Eq, Structural)]
pub enum RepoKind {
    Jj,
    GitOnly,
}

/// A repository in a workspace.
#[derive(Debug)]
pub struct RepoDir<P> {
    pub name: String,
    pub path: P,
    pub kind: RepoKind,
}

/// A directory that works on one branch: its repositories are sorted by name.
#[derive(Debug)]
pub struct Workspace<P> {
    pub path: P,
    pub branch: String,
    pub repos: Vec<RepoDir<P>>,
}

/// A canonical clone.
#[derive(Debug)]
pub struct SourceRepo<P> {
    pub namespace: String,
    pub name: String,
    pub path: P,
}

/// The content of a `RepoDir`.
pub struct RepoDirView<P> {
    pub name: Seq<char>,
    pub path: P,
    pub kind: RepoKind,
}

/// The content of a `Workspace`.
pub struct WorkspaceView<P> {
    pub path: P,
    pub branch: Seq<char>,
    pub repos: Seq<RepoDirView<P>>,
}

/// The content of a `SourceRepo`.
pub struct SourceRepoView<P> {
    pub namespace: Seq<char>,
    pub name: Seq<char>,
    pub path: P,
}

impl<P> DeepView for RepoDir<P> {
    type V = RepoDirView<P>;

    open spec fn deep_view(&self) -> RepoDirView<P> {
        RepoDirView { name: self.name@, path: self.path, kind: self.kind }
    }
}

impl<P> DeepView for Workspace<P> {
    type V = WorkspaceView<P>;

    open spec fn deep_view(&self) -> WorkspaceView<P> {
        WorkspaceView { path: self.path, branch: self.branch@, repos: self.repos.deep_view() }
    }
}

impl<P> DeepView for SourceRepo<P> {
    type V = SourceRepoView<P>;

    open spec fn deep_view(&self) -> SourceRepoView<P> {
        SourceRepoView { namespace: self.namespace@, name: self.name@, path: self.path }
    }
}

/// Repositories are sorted by name.
impl<P> order::Ranked for RepoDir<P> {
    open spec fn rank_of(v: RepoDirView<P>) -> order::Rank {
        (v.name, seq![])
    }

    fn before(&self, other: &Self) -> (r: bool) {
        proof {
            order::lemma_text_irreflexive(seq![]);
        }
        order::text_before(self.name.as_str(), other.name.as_str())
    }
}

/// Workspaces are sorted by branch.
impl<P> order::Ranked for Workspace<P> {
    open spec fn rank_of(v: WorkspaceView<P>) -> order::Rank {
        (v.branch, seq![])
    }

    fn before(&self, other: &Self) -> (r: bool) {
        proof {
            order::lemma_text_irreflexive(seq![]);
        }
        order::text_before(self.branch.as_str(), other.branch.as_str())
    }
}

/// Sources are sorted by namespace, and by name within one.
impl<P> order::Ranked for SourceRepo<P> {
    open spec fn rank_of(v: SourceRepoView<P>) -> order::Rank {
        (v.namespace, v.name)
    }

    fn before(&self, other: &Self) -> (r: bool) {
        order::text_before(self.namespace.as_str(), other.namespace.as_str()) || (self.namespace
            == other.namespace && order::text_before(self.name.as_str(), other.name.as_str()))
    }
}

// ---------------------------------------------------------------------------------------------
// Listings

/// One entry of a directory.
#[derive(Debug)]
pub struct Entry<P> {
    pub name: String,
    pub path: P,
    pub is_dir: bool,
    /// Whether it holds a `.jj`.
    pub has_jj: bool,
    /// Whether it holds a `.git`.
    pub has_git: bool,
}

/// Whether a name is that of something hidden.
pub open spec fn hidden(name: Seq<char>) -> bool {
    name.len() > 0 && name[0] == '.'
}

/// Whether a search goes into an entry.
pub open spec fn entered(name: Seq<char>, is_dir: bool) -> bool {
    is_dir && !hidden(name)
}

/// Whether a search goes into an entry: it does into directories that are not hidden.
pub fn enters(name: &str, is_dir: bool) -> (b: bool)
    ensures
        b == entered(name@, is_dir),
        b <==> is_dir && (name@.len() == 0 || name@[0] != '.'),
{
    let c = text::chars_of(name);
    is_dir && !(c.len() > 0 && c[0] == '.')
}

/// The repository that an entry of a workspace is.
pub open spec fn repo_of<P>(e: Entry<P>) -> Option<RepoDirView<P>> {
    if !entered(e.name@, e.is_dir) {
        None
    } else if e.has_jj {
        Some(RepoDirView { name: e.name@, path: e.path, kind: RepoKind::Jj })
    } else if e.has_git {
        Some(RepoDirView { name: e.name@, path: e.path, kind: RepoKind::GitOnly })
    } else {
        None
    }
}

/// The repositories among the entries, in their order.
pub open spec fn repos_of<P>(entries: Seq<Entry<P>>) -> Seq<RepoDirView<P>>
    decreases entries.len(),
{
    if entries.len() == 0 {
        seq![]
    } else {
        let before = repos_of(entries.drop_last());
        match repo_of(entries.last()) {
            Some(r) => before.push(r),
            None => before,
        }
    }
}

/// The workspace in `dir`, which works on `branch` and lists `entries`: its repositories are the
/// directories that are not hidden and that jj or git manages, sorted by name.
pub fn workspace_at<P>(dir: P, branch: String, entries: Vec<Entry<P>>) -> (out: Workspace<P>)
    ensures
        out.path == dir,
        out.branch == branch,
        order::stably_sorted(
            repos_of(entries@),
            out.repos.deep_view(),
            order::rank_fn::<RepoDir<P>>(),
        ),
{
    let ghost all = entries@;
    let mut repos: Vec<RepoDir<P>> = Vec::new();
    for e in it: entries
        invariant
            it.seq() == all,
            repos.deep_view() =~= repos_of(all.take(it.index() as int)),
    {
        let ghost n = it.index() as int;
        let ghost before = repos.deep_view();
        proof {
            assert(e == all[n]);
            assert(all.take(n + 1).drop_last() =~= all.take(n));
            assert(all.take(n + 1).last() == e);
        }
        if enters(e.name.as_str(), e.is_dir) && (e.has_jj || e.has_git) {
            let kind = if e.has_jj {
                RepoKind::Jj
            } else {
                RepoKind::GitOnly
            };
            let r = RepoDir { name: e.name, path: e.path, kind };
            repos.push(r);
            assert(repos.deep_view() =~= before.push(r.deep_view()));
        }
    }
    assert(all.take(all.len() as int) =~= all);
    Workspace { path: dir, branch, repos: order::sort_by_rank(repos) }
}

/// The workspace in `dir`, whose `branch.toml` holds `raw` and which lists `entries`.
pub fn load_workspace<P>(dir: P, raw: &str, entries: Vec<Entry<P>>) -> (out: Result<
    Workspace<P>,
    ConfigError,
>)
    ensures
        match out {
            Ok(ws) => config::config_in(raw@) == Ok::<Seq<char>, ConfigErrorView>(ws.branch@)
                && ws.path == dir && order::stably_sorted(
                repos_of(entries@),
                ws.repos.deep_view(),
                order::rank_fn::<RepoDir<P>>(),
            ),
            Err(e) => config::config_in(raw@) == Err::<Seq<char>, ConfigErrorView>(e.deep_view()),
        },
{
    match config::read_branch_config(raw) {
        Ok(config) => Ok(workspace_at(dir, config.branch, entries)),
        Err(e) => Err(e),
    }
}

/// Whether jj manages one of the repositories.
pub open spec fn any_jj<P>(ws: WorkspaceView<P>) -> bool {
    exists|i: int| 0 <= i < ws.repos.len() && (#[trigger] ws.repos[i]).kind == RepoKind::Jj
}

/// Whether jj manages one of the repositories.
pub fn has_any_jj<P>(ws: &Workspace<P>) -> (b: bool)
    ensures
        b == any_jj(ws.deep_view()),
{
    let ghost v = ws.deep_view().repos;
    let mut i: usize = 0;
    while i < ws.repos.len()
        invariant
            i <= ws.repos.len(),
            v == ws.deep_view().repos,
            forall|j: int| 0 <= j < i ==> (#[trigger] v[j]).kind != RepoKind::Jj,
        decreases ws.repos.len() - i,
    {
        if ws.repos[i].kind == RepoKind::Jj {
            assert(v[i as int].kind == RepoKind::Jj);
            return true;
        }
        i += 1;
    }
    false
}

// ---------------------------------------------------------------------------------------------
// Workspaces

/// How far below the root workspaces are looked for.
pub const MAX_DEPTH: usize = 6;

/// What was found at a directory.
#[derive(Debug)]
pub enum Place<P> {
    /// It holds a readable `branch.toml`.
    Workspace(Workspace<P>),
    /// It holds none; these are its entries.
    Listing(Vec<Child<P>>),
    /// Nothing is to be had: it cannot be read, or its `branch.toml` cannot, or it was not
    /// looked at.
    Nothing,
}

/// An entry of a directory, with what was found there.
#[derive(Debug)]
pub struct Child<P> {
    pub name: String,
    pub is_dir: bool,
    pub place: Place<P>,
}

/// The workspaces at a place `depth` levels below the root: the place itself where it is one,
/// else those below the directories in it that are not hidden.
pub open spec fn found<P>(place: Place<P>, depth: nat) -> Seq<WorkspaceView<P>>
    decreases 2 * (MAX_DEPTH + 1 - depth) + 1, 0nat,
{
    if depth > MAX_DEPTH {
        seq![]
    } else {
        match place {
            Place::Workspace(ws) => seq![ws.deep_view()],
            Place::Listing(children) => found_below(children@, depth),
            Place::Nothing => seq![],
        }
    }
}

/// The workspaces below the entries of a place that is `depth` levels below the root.
pub open spec fn found_below<P>(children: Seq<Child<P>>, depth: nat) -> Seq<WorkspaceView<P>>
    decreases 2 * (MAX_DEPTH + 1 - depth), children.len(),
    when depth <= MAX_DEPTH
{
    if children.len() == 0 {
        seq![]
    } else {
        let before = found_below(children.drop_last(), depth);
        let last = children.last();
        if entered(last.name@, last.is_dir) {
            before + found(last.place, depth + 1)
        } else {
            before
        }
    }
}

/// Whether workspaces are looked for at this depth.
pub fn within_depth(depth: usize) -> (b: bool)
    ensures
        b == (depth <= MAX_DEPTH),
{
    depth <= MAX_DEPTH
}

/// Gathers the workspaces at a place.
fn walk<P>(place: Place<P>, depth: usize, out: &mut Vec<Workspace<P>>)
    requires
        depth <= MAX_DEPTH + 1,
    ensures
        final(out).deep_view() == old(out).deep_view() + found(place, depth as nat),
    decreases MAX_DEPTH + 1 - depth,
{
    let ghost start = out.deep_view();
    if depth > MAX_DEPTH {
        assert(out.deep_view() =~= start + found(place, depth as nat));
        return ;
    }
    match place {
        Place::Workspace(ws) => {
            let ghost v = ws.deep_view();
            out.push(ws);
            assert(out.deep_view() =~= start + seq![v]);
        },
        Place::Listing(children) => {
            let ghost all = children@;
            assert(out.deep_view() =~= start + found_below(all.take(0), depth as nat));
            for child in it: children
                invariant
                    it.seq() == all,
                    depth <= MAX_DEPTH,
                    out.deep_view() =~= start + found_below(
                        all.take(it.index() as int),
                        depth as nat,
                    ),
            {
                let ghost n = it.index() as int;
                proof {
                    assert(child == all[n]);
                    assert(all.take(n + 1).drop_last() =~= all.take(n));
                    assert(all.take(n + 1).last() == child);
                }
                if enters(child.name.as_str(), child.is_dir) {
                    walk(child.place, depth + 1, out);
                }
            }
            assert(all.take(all.len() as int) =~= all);
        },
        Place::Nothing => {
            assert(out.deep_view() =~= start + found(place, depth as nat));
        },
    }
}

/// The workspaces at and below the root, sorted by branch.
pub fn scan<P>(root: Place<P>) -> (out: Vec<Workspace<P>>)
    ensures
        order::stably_sorted(
            found(root, 0),
            out.deep_view(),
            order::rank_fn::<Workspace<P>>(),
        ),
{
    let mut out: Vec<Workspace<P>> = Vec::new();
    walk(root, 0, &mut out);
    assert(out.deep_view() =~= found(root, 0));
    order::sort_by_rank(out)
}

/// What stands where `path` leads from a place: at each step it names an entry, which has to be a
/// directory that is not hidden, of a directory that is not a workspace.
pub open spec fn reached<P>(place: Place<P>, path: Seq<int>) -> Option<Place<P>>
    decreases path.len(),
{
    if path.len() == 0 {
        Some(place)
    } else {
        match place {
            Place::Listing(children) => {
                let i = path[0];
                if 0 <= i < children@.len() && entered(children@[i].name@, children@[i].is_dir) {
                    reached(children@[i].place, path.drop_first())
                } else {
                    None
                }
            },
            _ => None,
        }
    }
}

/// Every workspace is found that can be reached from the root in as many steps as there are
/// levels.
pub proof fn law_reached_is_found<P>(root: Place<P>, path: Seq<int>, ws: Workspace<P>)
    requires
        reached(root, path) == Some(Place::Workspace(ws)),
        path.len() <= MAX_DEPTH,
    ensures
        found(root, 0).contains(ws.deep_view()),
{
    lemma_reached_is_found(root, 0, path, ws);
}

proof fn lemma_reached_is_found<P>(place: Place<P>, depth: nat, path: Seq<int>, ws: Workspace<P>)
    requires
        reached(place, path) == Some(Place::Workspace(ws)),
        depth + path.len() <= MAX_DEPTH,
    ensures
        found(place, depth).contains(ws.deep_view()),
    decreases path.len(),
{
    if path.len() == 0 {
        assert(found(place, depth)[0] == ws.deep_view());
    } else if let Place::Listing(children) = place {
        let i = path[0];
        lemma_reached_is_found(children@[i].place, depth + 1, path.drop_first(), ws);
        lemma_found_below(children@, depth, i, ws.deep_view());
    }
}

proof fn lemma_found_below<P>(
    children: Seq<Child<P>>,
    depth: nat,
    i: int,
    x: WorkspaceView<P>,
)
    requires
        depth <= MAX_DEPTH,
        0 <= i < children.len(),
        entered(children[i].name@, children[i].is_dir),
        found(children[i].place, depth + 1).contains(x),
    ensures
        found_below(children, depth).contains(x),
    decreases children.len(),
{
    let before = found_below(children.drop_last(), depth);
    let all = found_below(children, depth);
    if i == children.len() - 1 {
        let own = found(children[i].place, depth + 1);
        let k = choose|k: int| 0 <= k < own.len() && own[k] == x;
        assert(all[before.len() + k] == x);
    } else {
        lemma_found_below(children.drop_last(), depth, i, x);
        let k = choose|k: int| 0 <= k < before.len() && before[k] == x;
        assert(all[k] == x);
    }
}

/// Every workspace that is found can be reached from the root in as many steps as there are
/// levels; the path is returned.
pub proof fn law_found_is_reached<P>(root: Place<P>, x: WorkspaceView<P>) -> (path: Seq<int>)
    requires
        found(root, 0).contains(x),
    ensures
        path.len() <= MAX_DEPTH,
        reached(root, path) matches Some(Place::Workspace(ws)) && ws.deep_view() == x,
{
    lemma_found_is_reached(root, 0, x)
}

proof fn lemma_found_is_reached<P>(place: Place<P>, depth: nat, x: WorkspaceView<P>) -> (path: Seq<
    int,
>)
    requires
        found(place, depth).contains(x),
    ensures
        depth + path.len() <= MAX_DEPTH,
        reached(place, path) matches Some(Place::Workspace(ws)) && ws.deep_view() == x,
    decreases 2 * (MAX_DEPTH + 1 - depth) + 1, 0nat,
{
    match place {
        Place::Workspace(ws) => seq![],
        Place::Listing(children) => {
            let (i, rest) = lemma_below_is_reached(children@, depth, x);
            let path = seq![i] + rest;
            assert(path.drop_first() =~= rest);
            path
        },
        Place::Nothing => seq![],
    }
}

proof fn lemma_below_is_reached<P>(
    children: Seq<Child<P>>,
    depth: nat,
    x: WorkspaceView<P>,
) -> (out: (int, Seq<int>))
    requires
        depth <= MAX_DEPTH,
        found_below(children, depth).contains(x),
    ensures
        0 <= out.0 < children.len(),
        entered(children[out.0].name@, children[out.0].is_dir),
        depth + 1 + out.1.len() <= MAX_DEPTH,
        reached(children[out.0].place, out.1) matches Some(Place::Workspace(ws)) && ws.deep_view()
            == x,
    decreases 2 * (MAX_DEPTH + 1 - depth), children.len(),
{
    let all = found_below(children, depth);
    let k = choose|k: int| 0 <= k < all.len() && all[k] == x;
    let before = found_below(children.drop_last(), depth);
    if k < before.len() {
        assert(before[k] == x);
        lemma_below_is_reached(children.drop_last(), depth, x)
    } else {
        let own = found(children.last().place, depth + 1);
        assert(own[k - before.len()] == x);
        let rest = lemma_found_is_reached(children.last().place, depth + 1, x);
        (children.len() - 1, rest)
    }
}

// ---------------------------------------------------------------------------------------------
// Sources

/// A directory below the root of the sources, with its entries where they could be read.
#[derive(Debug)]
pub struct Namespace<P> {
    pub name: String,
    pub is_dir: bool,
    pub entries: Option<Vec<Entry<P>>>,
}

/// The sources among the entries of a namespace: directories that are not hidden and that jj
/// manages.
pub open spec fn sources_in<P>(
    namespace: Seq<char>,
    entries: Seq<Entry<P>>,
) -> Seq<SourceRepoView<P>>
    decreases entries.len(),
{
    if entries.len() == 0 {
        seq![]
    } else {
        let before = sources_in(namespace, entries.drop_last());
        let e = entries.last();
        if entered(e.name@, e.is_dir) && e.has_jj {
            before.push(SourceRepoView { namespace, name: e.name@, path: e.path })
        } else {
            before
        }
    }
}

/// The sources in all namespaces that are directories, not hidden and readable.
pub open spec fn sources_of<P>(namespaces: Seq<Namespace<P>>) -> Seq<SourceRepoView<P>>
    decreases namespaces.len(),
{
    if namespaces.len() == 0 {
        seq![]
    } else {
        let before = sources_of(namespaces.drop_last());
        let n = namespaces.last();
        match n.entries {
            Some(entries) if entered(n.name@, n.is_dir) => before + sources_in(n.name@, entries@),
            _ => before,
        }
    }
}

fn add_sources<P>(namespace: &String, entries: Vec<Entry<P>>, out: &mut Vec<SourceRepo<P>>)
    ensures
        final(out).deep_view() == old(out).deep_view() + sources_in(namespace@, entries@),
{
    let ghost start = out.deep_view();
    let ghost all = entries@;
    assert(out.deep_view() =~= start + sources_in(namespace@, all.take(0)));
    for e in it: entries
        invariant
            it.seq() == all,
            out.deep_view() =~= start + sources_in(namespace@, all.take(it.index() as int)),
    {
        let ghost n = it.index() as int;
        let ghost before = out.deep_view();
        proof {
            assert(e == all[n]);
            assert(all.take(n + 1).drop_last() =~= all.take(n));
            assert(all.take(n + 1).last() == e);
        }
        if enters(e.name.as_str(), e.is_dir) && e.has_jj {
            let r = SourceRepo { namespace: namespace.clone(), name: e.name, path: e.path };
            out.push(r);
            assert(out.deep_view() =~= before.push(r.deep_view()));
        }
    }
    assert(all.take(all.len() as int) =~= all);
}

/// The source repositories below the root, sorted by namespace and name.
pub fn scan_sources<P>(root: Vec<Namespace<P>>) -> (out: Vec<SourceRepo<P>>)
    ensures
        order::stably_sorted(
            sources_of(root@),
            out.deep_view(),
            order::rank_fn::<SourceRepo<P>>(),
        ),
{
    let ghost all = root@;
    let mut out: Vec<SourceRepo<P>> = Vec::new();
    for n in it: root
        invariant
            it.seq() == all,
            out.deep_view() =~= sources_of(all.take(it.index() as int)),
    {
        let ghost k = it.index() as int;
        proof {
            assert(n == all[k]);
            assert(all.take(k + 1).drop_last() =~= all.take(k));
            assert(all.take(k + 1).last() == n);
        }
        if enters(n.name.as_str(), n.is_dir) {
            if let Some(entries) = n.entries {
                add_sources(&n.name, entries, &mut out);
            }
        }
    }
    assert(all.take(all.len() as int) =~= all);
    order::sort_by_rank(out)
}

// ---------------------------------------------------------------------------------------------
// What is found, in terms of what stands on disk

/// The repositories of a workspace are its visible directories that hold a `.jj` or a `.git`, all
/// of them and in the order of the entries, under their own names and paths; jj goes before git.
pub proof fn law_repositories_of_entries<P>(entries: Seq<Entry<P>>) -> (p: Seq<int>)
    ensures
        p.len() == repos_of(entries).len(),
        forall|k: int|
            0 <= k < p.len() ==> {
                let e = entries[#[trigger] p[k]];
                let r = repos_of(entries)[k];
                &&& 0 <= p[k] < entries.len()
                &&& e.is_dir && (e.name@.len() == 0 || e.name@[0] != '.')
                &&& e.has_jj || e.has_git
                &&& r.name == e.name@ && r.path == e.path
                &&& r.kind == RepoKind::Jj <==> e.has_jj
            },
        forall|j: int, k: int| 0 <= j < k < p.len() ==> #[trigger] p[j] < #[trigger] p[k],
        forall|i: int|
            0 <= i < entries.len() && (#[trigger] entries[i]).is_dir && (entries[i].name@.len() == 0
                || entries[i].name@[0] != '.') && (entries[i].has_jj || entries[i].has_git)
                ==> p.contains(i),
    decreases entries.len(),
{
    if entries.len() == 0 {
        seq![]
    } else {
        let t = entries.drop_last();
        let n = entries.len() - 1;
        let q = law_repositories_of_entries(t);
        let p = if repo_of(entries.last()) is Some {
            q.push(n)
        } else {
            q
        };
        assert forall|k: int| 0 <= k < p.len() implies {
            let e = entries[#[trigger] p[k]];
            let r = repos_of(entries)[k];
            &&& 0 <= p[k] < entries.len()
            &&& e.is_dir && (e.name@.len() == 0 || e.name@[0] != '.')
            &&& e.has_jj || e.has_git
            &&& r.name == e.name@ && r.path == e.path
            &&& r.kind == RepoKind::Jj <==> e.has_jj
        } by {
            if k < q.len() {
                assert(p[k] == q[k]);
                assert(t[q[k]] == entries[q[k]]);
                assert(repos_of(entries)[k] == repos_of(t)[k]);
            }
        }
        assert forall|i: int|
            0 <= i < entries.len() && (#[trigger] entries[i]).is_dir && (entries[i].name@.len() == 0
                || entries[i].name@[0] != '.') && (entries[i].has_jj || entries[i].has_git) implies p.contains(
        i) by {
            if i < n {
                assert(t[i] == entries[i]);
                assert(q.contains(i));
                let k = choose|k: int| 0 <= k < q.len() && q[k] == i;
                assert(p[k] == i);
            } else {
                assert(p[q.len() as int] == i);
            }
        }
        p
    }
}

/// The scan goes into the visible directories of a directory, one after the other, and into nothing
/// else.
pub proof fn law_scan_enters_visible_directories<P>(
    children: Seq<Child<P>>,
    child: Child<P>,
    depth: nat,
)
    requires
        depth <= 6,
    ensures
        !child.is_dir || (child.name@.len() > 0 && child.name@[0] == '.') ==> found_below(
            children.push(child),
            depth,
        ) == found_below(children, depth),
        child.is_dir && (child.name@.len() == 0 || child.name@[0] != '.') ==> found_below(
            children.push(child),
            depth,
        ) == found_below(children, depth) + found(child.place, depth + 1),
{
    assert(children.push(child).drop_last() =~= children);
}

/// Down to six levels below the root a workspace is found where it stands, and nothing below it;
/// deeper than that nothing is found.
pub proof fn law_depth_of_the_scan<P>(place: Place<P>, depth: nat)
    ensures
        depth > 6 ==> found(place, depth).len() == 0,
        match place {
            Place::Workspace(ws) => depth <= 6 ==> found(place, depth) == seq![ws.deep_view()],
            Place::Listing(children) => depth <= 6 ==> found(place, depth) == found_below(
                children@,
                depth,
            ),
            Place::Nothing => found(place, depth).len() == 0,
        },
        depth <= 6 ==> found_below(Seq::<Child<P>>::empty(), depth).len() == 0,
{
}

/// The sources of a namespace are its visible directories that hold a `.jj`, all of them and in
/// the order of the entries.
pub proof fn law_sources_of_entries<P>(namespace: Seq<char>, entries: Seq<Entry<P>>) -> (p: Seq<int>)
    ensures
        p.len() == sources_in(namespace, entries).len(),
        forall|k: int|
            0 <= k < p.len() ==> {
                let e = entries[#[trigger] p[k]];
                let s = sources_in(namespace, entries)[k];
                &&& 0 <= p[k] < entries.len()
                &&& e.is_dir && (e.name@.len() == 0 || e.name@[0] != '.')
                &&& e.has_jj
                &&& s.namespace == namespace && s.name == e.name@ && s.path == e.path
            },
        forall|j: int, k: int| 0 <= j < k < p.len() ==> #[trigger] p[j] < #[trigger] p[k],
        forall|i: int|
            0 <= i < entries.len() && (#[trigger] entries[i]).is_dir && (entries[i].name@.len() == 0
                || entries[i].name@[0] != '.') && entries[i].has_jj ==> p.contains(i),
    decreases entries.len(),
{
    if entries.len() == 0 {
        seq![]
    } else {
        let t = entries.drop_last();
        let n = entries.len() - 1;
        let q = law_sources_of_entries(namespace, t);
        let p = if sources_in(namespace, entries).len() > sources_in(namespace, t).len() {
            q.push(n)
        } else {
            q
        };
        assert forall|k: int| 0 <= k < p.len() implies {
            let e = entries[#[trigger] p[k]];
            let s = sources_in(namespace, entries)[k];
            &&& 0 <= p[k] < entries.len()
            &&& e.is_dir && (e.name@.len() == 0 || e.name@[0] != '.')
            &&& e.has_jj
            &&& s.namespace == namespace && s.name == e.name@ && s.path == e.path
        } by {
            if k < q.len() {
                assert(p[k] == q[k]);
                assert(t[q[k]] == entries[q[k]]);
                assert(sources_in(namespace, entries)[k] == sources_in(namespace, t)[k]);
            }
        }
        assert forall|i: int|
            0 <= i < entries.len() && (#[trigger] entries[i]).is_dir && (entries[i].name@.len() == 0
                || entries[i].name@[0] != '.') && entries[i].has_jj implies p.contains(i) by {
            if i < n {
                assert(t[i] == entries[i]);
                assert(q.contains(i));
                let k = choose|k: int| 0 <= k < q.len() && q[k] == i;
                assert(p[k] == i);
            } else {
                assert(p[q.len() as int] == i);
            }
        }
        p
    }
}

/// The sources are those of the visible directories that can be read, one after the other.
pub proof fn law_sources_of_namespaces<P>(namespaces: Seq<Namespace<P>>, last: Namespace<P>)
    ensures
        sources_of(Seq::<Namespace<P>>::empty()).len() == 0,
        match last.entries {
            Some(entries) => last.is_dir && (last.name@.len() == 0 || last.name@[0] != '.')
                ==> sources_of(namespaces.push(last)) == sources_of(namespaces) + sources_in(
                last.name@,
                entries@,
            ),
            None => sources_of(namespaces.push(last)) == sources_of(namespaces),
        },
        !last.is_dir || (last.name@.len() > 0 && last.name@[0] == '.') ==> sources_of(
            namespaces.push(last),
        ) == sources_of(namespaces),
{
    assert(namespaces.push(last).drop_last() =~= namespaces);
}

/// Workspaces come in the order of their branches, those on the same branch as they were found.
pub proof fn law_workspaces_by_branch<P>(from: Seq<WorkspaceView<P>>, to: Seq<WorkspaceView<P>>) -> (p:
    Seq<int>)
    requires
        order::stably_sorted(from, to, order::rank_fn::<Workspace<P>>()),
    ensures
        p.len() == from.len(),
        to.len() == from.len(),
        forall|i: int| 0 <= i < p.len() ==> 0 <= #[trigger] p[i] < from.len() && to[i] == from[p[i]],
        forall|m: int| 0 <= m < from.len() ==> p.contains(m),
        forall|i: int, j: int|
            #![trigger p[i], p[j]]
            0 <= i < j < p.len() ==> order::text_lt(to[i].branch, to[j].branch) || (to[i].branch
                == to[j].branch && p[i] < p[j]),
{
    let rank = order::rank_fn::<Workspace<P>>();
    let p = choose|p: Seq<int>| order::sorted_by(from, to, rank, p);
    assert forall|i: int, j: int|
        #![trigger p[i], p[j]]
        0 <= i < j < p.len() implies order::text_lt(to[i].branch, to[j].branch) || (to[i].branch
        == to[j].branch && p[i] < p[j]) by {
        order::lemma_text_irreflexive(Seq::empty());
        assert(rank(to[i]).0 == to[i].branch && rank(to[j]).0 == to[j].branch);
    }
    p
}

/// The repositories of a workspace come in the order of their names.
pub proof fn law_repositories_by_name<P>(from: Seq<RepoDirView<P>>, to: Seq<RepoDirView<P>>) -> (p:
    Seq<int>)
    requires
        order::stably_sorted(from, to, order::rank_fn::<RepoDir<P>>()),
    ensures
        p.len() == from.len(),
        to.len() == from.len(),
        forall|i: int| 0 <= i < p.len() ==> 0 <= #[trigger] p[i] < from.len() && to[i] == from[p[i]],
        forall|m: int| 0 <= m < from.len() ==> p.contains(m),
        forall|i: int, j: int|
            #![trigger p[i], p[j]]
            0 <= i < j < p.len() ==> order::text_lt(to[i].name, to[j].name) || (to[i].name
                == to[j].name && p[i] < p[j]),
{
    let rank = order::rank_fn::<RepoDir<P>>();
    let p = choose|p: Seq<int>| order::sorted_by(from, to, rank, p);
    assert forall|i: int, j: int|
        #![trigger p[i], p[j]]
        0 <= i < j < p.len() implies order::text_lt(to[i].name, to[j].name) || (to[i].name
        == to[j].name && p[i] < p[j]) by {
        order::lemma_text_irreflexive(Seq::empty());
        assert(rank(to[i]).0 == to[i].name && rank(to[j]).0 == to[j].name);
    }
    p
}

/// Sources come in the order of their namespaces, and within a namespace in that of their names.
pub proof fn law_sources_by_namespace_and_name<P>(
    from: Seq<SourceRepoView<P>>,
    to: Seq<SourceRepoView<P>>,
) -> (p: Seq<int>)
    requires
        order::stably_sorted(from, to, order::rank_fn::<SourceRepo<P>>()),
    ensures
        p.len() == from.len(),
        to.len() == from.len(),
        forall|i: int| 0 <= i < p.len() ==> 0 <= #[trigger] p[i] < from.len() && to[i] == from[p[i]],
        forall|m: int| 0 <= m < from.len() ==> p.contains(m),
        forall|i: int, j: int|
            #![trigger p[i], p[j]]
            0 <= i < j < p.len() ==> {
                ||| order::text_lt(to[i].namespace, to[j].namespace)
                ||| to[i].namespace == to[j].namespace && order::text_lt(to[i].name, to[j].name)
                ||| to[i].namespace == to[j].namespace && to[i].name == to[j].name && p[i] < p[j]
            },
{
    let rank = order::rank_fn::<SourceRepo<P>>();
    let p = choose|p: Seq<int>| order::sorted_by(from, to, rank, p);
    assert forall|i: int, j: int|
        #![trigger p[i], p[j]]
        0 <= i < j < p.len() implies {
        ||| order::text_lt(to[i].namespace, to[j].namespace)
        ||| to[i].namespace == to[j].namespace && order::text_lt(to[i].name, to[j].name)
        ||| to[i].namespace == to[j].namespace && to[i].name == to[j].name && p[i] < p[j]
    } by {
        assert(rank(to[i]) == (to[i].namespace, to[i].name));
        assert(rank(to[j]) == (to[j].namespace, to[j].name));
    }
    p
}

/// A workspace has a jj repository exactly where one of its repositories is jj's.
pub proof fn law_any_jj<P>(ws: WorkspaceView<P>)
    ensures
        forall|i: int|
            0 <= i < ws.repos.len() && (#[trigger] ws.repos[i]).kind == RepoKind::Jj ==> any_jj(ws),
        (forall|i: int|
            0 <= i < ws.repos.len() ==> (#[trigger] ws.repos[i]).kind == RepoKind::GitOnly)
            ==> !any_jj(ws),
{
}

} // verus!
