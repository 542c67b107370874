//! The logs of workspaces and sources as the pages show them: annotated with what is known of the
//! pull requests, and gathered across workspaces.
use vstd::prelude::*;

use crate::discovery::RepoKind;
use crate::discovery::Workspace;
use crate::discovery::WorkspaceView;
use crate::gh;
use crate::gh::PrInfoView;
use crate::gh::PrMap;
use crate::jj::CommitView;
use crate::jj::LogLine;
use crate::jj::LogLineView;
use crate::text;

verus! {

// ---------------------------------------------------------------------------------------------
// What is known of the pull requests

/// The pull requests known, and when they were last asked for.
#[derive(Debug)]
pub struct PrCacheInner<T> {
    pub map: PrMap,
    pub last_sync: Option<T>,
}

/// What the pages see of the cache at one moment.
#[derive(Debug)]
pub struct CacheSnapshot<T> {
    pub map: PrMap,
    pub last_sync: Option<T>,
}

impl<T: Copy> PrCacheInner<T> {
    /// A cache that was never filled.
    pub fn new() -> (out: PrCacheInner<T>)
        ensures
            out.map.wf(),
            out.map@ == Map::<gh::PrKey, PrInfoView>::empty(),
            out.last_sync is None,
    {
        PrCacheInner { map: PrMap::new(), last_sync: None }
    }

    /// Puts `map` in place of all that was known, as of `now`.
    pub fn refresh(&mut self, map: PrMap, now: T)
        ensures
            final(self).map == map,
            final(self).last_sync == Some(now),
    {
        self.map = map;
        self.last_sync = Some(now);
    }

    /// What is known now.
    pub fn snapshot(&self) -> (out: CacheSnapshot<T>)
        requires
            self.map.wf(),
        ensures
            out.map.wf(),
            out.map@ == self.map@,
            out.last_sync == self.last_sync,
    {
        CacheSnapshot { map: self.map.clone(), last_sync: self.last_sync }
    }
}

/// A commit with what `map` knows of its pull request.
pub open spec fn annotated(c: CommitView, map: Map<gh::PrKey, PrInfoView>) -> CommitView {
    match c.pr_url {
        Some(url) => match gh::pr_url_parts(url) {
            Some(key) => if map.contains_key(key) {
                CommitView {
                    is_draft: Some(map[key].is_draft),
                    pr_title: Some(map[key].title),
                    pr_state: Some(map[key].state),
                    review_decision: Some(map[key].review_decision),
                    ..c
                }
            } else {
                c
            },
            None => c,
        },
        None => c,
    }
}

/// A line with what `map` knows of its commit's pull request.
pub open spec fn annotated_line(l: LogLineView, map: Map<gh::PrKey, PrInfoView>) -> LogLineView {
    match l.commit {
        Some(c) => LogLineView { graph: l.graph, commit: Some(annotated(c, map)) },
        None => l,
    }
}

/// The lines with what `map` knows of their commits' pull requests.
pub open spec fn annotated_lines(
    lines: Seq<LogLineView>,
    map: Map<gh::PrKey, PrInfoView>,
) -> Seq<LogLineView> {
    Seq::new(lines.len(), |i: int| annotated_line(lines[i], map))
}

/// Gives every commit what `map` knows of its pull request: draft or not, title, state and review
/// decision. A commit whose pull request is not known stays as it is.
pub fn annotate_drafts(lines: Vec<LogLine>, map: &PrMap) -> (out: Vec<LogLine>)
    requires
        map.wf(),
    ensures
        out.deep_view() == annotated_lines(lines.deep_view(), map@),
{
    let ghost all = lines.deep_view();
    if map.is_empty() {
        assert(annotated_lines(all, map@) =~= all);
        return lines;
    }
    let mut out: Vec<LogLine> = Vec::new();
    for line in it: lines
        invariant
            it.seq() == lines@,
            all == lines.deep_view(),
            map.wf(),
            out.deep_view() =~= annotated_lines(all, map@).take(it.index() as int),
    {
        let ghost n = it.index() as int;
        let ghost before = out.deep_view();
        assert(all[n] == line.deep_view());
        let mut commit = line.commit;
        if let Some(c) = commit {
            let mut rich = c;
            let ghost was = rich.deep_view();
            if let Some(url) = &rich.pr_url {
                if let Some((owner, repo, number)) = gh::parse_pr_url(url.as_str()) {
                    if let Some(info) = map.get(&owner, &repo, number) {
                        rich.is_draft = Some(info.is_draft);
                        rich.pr_title = Some(info.title.clone());
                        rich.pr_state = Some(info.state);
                        rich.review_decision = Some(info.review_decision);
                    }
                }
            }
            assert(rich.deep_view() == annotated(was, map@));
            commit = Some(rich);
        }
        let line = LogLine { graph: line.graph, commit };
        assert(line.deep_view() == annotated_line(all[n], map@));
        out.push(line);
        assert(out.deep_view() =~= before.push(annotated_line(all[n], map@)));
    }
    assert(annotated_lines(all, map@).take(all.len() as int) =~= annotated_lines(all, map@));
    out
}

/// Annotating adds what is known of the pull request and leaves the rest of a commit as it was;
/// doing it again with the same knowledge changes nothing.
pub proof fn law_annotating(c: CommitView, map: Map<gh::PrKey, PrInfoView>)
    ensures
        annotated(annotated(c, map), map) == annotated(c, map),
        annotated(c, map) == (CommitView {
            is_draft: annotated(c, map).is_draft,
            pr_title: annotated(c, map).pr_title,
            pr_state: annotated(c, map).pr_state,
            review_decision: annotated(c, map).review_decision,
            ..c
        }),
{
}

// ---------------------------------------------------------------------------------------------
// The top of a stack

/// How many lines at the top carry no commit.
pub open spec fn connectors(lines: Seq<LogLineView>) -> int
    decreases lines.len(),
{
    if lines.len() > 0 && lines[0].commit is None {
        1 + connectors(lines.drop_first())
    } else {
        0
    }
}

/// Whether a line carries a commit without changes and without description.
pub open spec fn blank(l: LogLineView) -> bool {
    match l.commit {
        Some(c) => c.empty && c.title.len() == 0,
        None => false,
    }
}

/// `lines` without the blank commits at the top, nor what stands above each.
pub open spec fn trimmed_top(lines: Seq<LogLineView>) -> Seq<LogLineView>
    decreases lines.len(),
{
    let i = connectors(lines);
    if i < 0 || i >= lines.len() {
        seq![]
    } else if blank(lines[i]) {
        trimmed_top(lines.skip(i + 1))
    } else {
        lines
    }
}

proof fn lemma_connectors(lines: Seq<LogLineView>, n: int)
    requires
        0 <= n <= lines.len(),
        forall|j: int| 0 <= j < n ==> (#[trigger] lines[j]).commit is None,
        n < lines.len() ==> lines[n].commit is Some,
    ensures
        connectors(lines) == n,
    decreases lines.len(),
{
    if n > 0 {
        assert(lines[0].commit is None);
        let t = lines.drop_first();
        assert forall|j: int| 0 <= j < n - 1 implies (#[trigger] t[j]).commit is None by {
            assert(lines[j + 1].commit is None);
        }
        lemma_connectors(t, n - 1);
    }
}

proof fn lemma_connectors_bounds(lines: Seq<LogLineView>)
    ensures
        0 <= connectors(lines) <= lines.len(),
        connectors(lines) < lines.len() ==> lines[connectors(lines)].commit is Some,
    decreases lines.len(),
{
    if lines.len() > 0 && lines[0].commit is None {
        lemma_connectors_bounds(lines.drop_first());
    }
}

/// Drops the rows at the top down to the last of the commits there that are empty and have no
/// description (jj's working copy at the top of a stack).
pub fn trim_top_empty(lines: Vec<LogLine>) -> (out: Vec<LogLine>)
    ensures
        out.deep_view() == trimmed_top(lines.deep_view()),
{
    let ghost all = lines.deep_view();
    let mut start: usize = 0;
    let mut i: usize = 0;
    let mut found: bool = false;
    assert(all.skip(0) =~= all);
    while i < lines.len() && !found
        invariant
            start <= i <= lines.len(),
            all == lines.deep_view(),
            forall|j: int| start <= j < i ==> (#[trigger] all[j]).commit is None,
            trimmed_top(all) == trimmed_top(all.skip(start as int)),
            found ==> trimmed_top(all) == all.skip(start as int),
        decreases lines.len() - i + (if found { 0int } else { 1int }),
    {
        let ghost rest = all.skip(start as int);
        let ghost n = i - start;
        assert(all[i as int] == lines@[i as int].deep_view());
        assert(rest[n] == all[i as int]);
        match &lines[i].commit {
            None => {
                i += 1;
            },
            Some(c) => {
                proof {
                    assert forall|j: int| 0 <= j < n implies (#[trigger] rest[j]).commit is None by {
                        assert(all[start + j].commit is None);
                    }
                    lemma_connectors(rest, n);
                }
                if c.empty && text::is_empty(c.title.as_str()) {
                    assert(rest.skip(n + 1) =~= all.skip(i + 1));
                    i += 1;
                    start = i;
                } else {
                    found = true;
                }
            },
        }
    }
    if !found {
        proof {
            let rest = all.skip(start as int);
            assert forall|j: int| 0 <= j < rest.len() implies (#[trigger] rest[j]).commit is None by {
                assert(all[start + j].commit is None);
            }
            lemma_connectors(rest, rest.len() as int);
        }
        return Vec::new();
    }
    let mut out: Vec<LogLine> = Vec::new();
    let mut at: usize = 0;
    for line in it: lines
        invariant
            it.seq() == lines@,
            all == lines.deep_view(),
            at == it.index(),
            at <= lines.len(),
            start <= all.len(),
            out.deep_view() =~= (if at <= start {
                seq![]
            } else {
                all.subrange(start as int, at as int)
            }),
    {
        let ghost n = it.index() as int;
        let ghost before = out.deep_view();
        let ghost v = line.deep_view();
        assert(all[n] == v);
        assert(n < lines.len());
        if at >= start {
            out.push(line);
            assert(out.deep_view() =~= before.push(v));
        }
        at += 1;
    }
    assert(all.subrange(start as int, all.len() as int) =~= all.skip(start as int));
    out
}

/// What is left after trimming is the rest of the log from some line on; the first commit on it
/// is not blank, so trimming again changes nothing.
pub proof fn law_trimming(lines: Seq<LogLineView>)
    ensures
        trimmed_top(lines).is_suffix_of(lines),
        trimmed_top(lines).len() > 0 ==> {
            let i = connectors(trimmed_top(lines));
            0 <= i < trimmed_top(lines).len() && !blank(trimmed_top(lines)[i])
        },
        trimmed_top(trimmed_top(lines)) == trimmed_top(lines),
    decreases lines.len(),
{
    lemma_connectors_bounds(lines);
    let i = connectors(lines);
    if i < lines.len() && blank(lines[i]) {
        let rest = lines.skip(i + 1);
        law_trimming(rest);
        let t = trimmed_top(rest);
        assert(t =~= lines.subrange(lines.len() - t.len(), lines.len() as int));
    } else if i >= lines.len() {
        assert(lines.subrange(lines.len() as int, lines.len() as int) =~= seq![]);
    } else {
        assert(lines.subrange(0, lines.len() as int) =~= lines);
    }
}

// ---------------------------------------------------------------------------------------------
// The logs of workspaces

/// A workspace with its path as people read it and the stack of each of its repositories, in
/// their order: `None` where there is none to be had.
#[derive(Debug)]
pub struct WorkspaceLogs<P> {
    pub ws: Workspace<P>,
    pub path_text: String,
    pub stacks: Vec<Option<Vec<LogLine>>>,
}

/// The stacks of a workspace's repositories.
pub type Stacks = Seq<Option<Seq<LogLineView>>>;

/// The content of a `WorkspaceLogs`.
pub struct WorkspaceLogsView<P> {
    pub ws: WorkspaceView<P>,
    pub path_text: Seq<char>,
    pub stacks: Stacks,
}

impl<P> DeepView for WorkspaceLogs<P> {
    type V = WorkspaceLogsView<P>;

    open spec fn deep_view(&self) -> WorkspaceLogsView<P> {
        WorkspaceLogsView {
            ws: self.ws.deep_view(),
            path_text: self.path_text@,
            stacks: self.stacks.deep_view(),
        }
    }
}

/// The stack of the repository at `i`, where there is one and jj manages the repository.
pub open spec fn jj_stack<P>(w: WorkspaceLogsView<P>, i: int) -> Option<Seq<LogLineView>> {
    if w.ws.repos[i].kind == RepoKind::Jj && i < w.stacks.len() {
        w.stacks[i]
    } else {
        None
    }
}

fn find_stack<P>(w: &WorkspaceLogs<P>, i: usize) -> (out: Option<&Vec<LogLine>>)
    requires
        i < w.ws.repos.len(),
    ensures
        match out {
            Some(lines) => jj_stack(w.deep_view(), i as int) == Some(lines.deep_view()),
            None => jj_stack(w.deep_view(), i as int) is None,
        },
{
    assert(w.deep_view().ws.repos[i as int] == w.ws.repos@[i as int].deep_view());
    if w.ws.repos[i].kind == RepoKind::Jj && i < w.stacks.len() {
        assert(w.deep_view().stacks[i as int] == w.stacks@[i as int].deep_view());
        w.stacks[i].as_ref()
    } else {
        None
    }
}

/// The lines to show of a repository.
pub open spec fn repo_view(
    stack: Option<Seq<LogLineView>>,
    map: Map<gh::PrKey, PrInfoView>,
) -> Seq<LogLineView> {
    match stack {
        Some(lines) => annotated_lines(trimmed_top(lines), map),
        None => seq![],
    }
}

/// The jj repositories among the first `n` of a workspace, each with the lines to show of it.
pub open spec fn repo_views<P>(
    w: WorkspaceLogsView<P>,
    map: Map<gh::PrKey, PrInfoView>,
    n: nat,
) -> Seq<(Seq<char>, Seq<LogLineView>)>
    decreases n,
{
    if n == 0 {
        seq![]
    } else {
        let before = repo_views(w, map, (n - 1) as nat);
        let r = w.ws.repos[n - 1];
        if r.kind == RepoKind::Jj {
            before.push((r.name, repo_view(jj_stack(w, n - 1), map)))
        } else {
            before
        }
    }
}

/// The jj repositories of a workspace, each with the lines to show of it.
pub open spec fn ws_lines<P>(
    w: WorkspaceLogsView<P>,
    map: Map<gh::PrKey, PrInfoView>,
) -> Seq<(Seq<char>, Seq<LogLineView>)> {
    repo_views(w, map, w.ws.repos.len())
}

fn clone_lines(lines: &Vec<LogLine>) -> (out: Vec<LogLine>)
    ensures
        out.deep_view() == lines.deep_view(),
{
    let mut out: Vec<LogLine> = Vec::new();
    let mut i: usize = 0;
    while i < lines.len()
        invariant
            i <= lines.len(),
            out.deep_view() =~= lines.deep_view().take(i as int),
        decreases lines.len() - i,
    {
        let ghost before = out.deep_view();
        let l = lines[i].clone();
        out.push(l);
        assert(out.deep_view() =~= before.push(l.deep_view()));
        i += 1;
    }
    assert(lines.deep_view().take(i as int) =~= lines.deep_view());
    out
}

/// The jj repositories of a workspace, each with its stack, trimmed at the top and annotated. A
/// repository without a stack has no lines.
pub fn fetch_ws_lines<P>(w: &WorkspaceLogs<P>, map: &PrMap) -> (out: Vec<(String, Vec<LogLine>)>)
    requires
        map.wf(),
    ensures
        out.deep_view() == ws_lines(w.deep_view(), map@),
{
    let ghost v = w.deep_view();
    let mut out: Vec<(String, Vec<LogLine>)> = Vec::new();
    let mut i: usize = 0;
    assert(out.deep_view() =~= repo_views(v, map@, 0));
    while i < w.ws.repos.len()
        invariant
            i <= w.ws.repos.len(),
            v == w.deep_view(),
            map.wf(),
            out.deep_view() == repo_views(v, map@, i as nat),
        decreases w.ws.repos.len() - i,
    {
        let ghost before = out.deep_view();
        assert(v.ws.repos[i as int] == w.ws.repos@[i as int].deep_view());
        if w.ws.repos[i].kind == RepoKind::Jj {
            let lines: Vec<LogLine> = match find_stack(w, i) {
                Some(lines) => annotate_drafts(trim_top_empty(clone_lines(lines)), map),
                None => Vec::new(),
            };
            let entry = (w.ws.repos[i].name.clone(), lines);
            assert(entry.deep_view().1 =~= repo_view(jj_stack(v, i as int), map@));
            out.push(entry);
            assert(out.deep_view() =~= before.push(entry.deep_view()));
        }
        i += 1;
    }
    out
}

// ---------------------------------------------------------------------------------------------
// Which line of work a commit belongs to

/// Commits with the branch of the workspace and the name of the repository that hold them.
pub type CommitTags = Vec<(String, String, String)>;

/// The content of `CommitTags`: commit ID, branch, repository.
pub type Tags = Seq<(Seq<char>, Seq<char>, Seq<char>)>;

/// The tags of the commits on `lines`.
pub open spec fn tags_on(lines: Seq<LogLineView>, branch: Seq<char>, repo: Seq<char>) -> Tags
    decreases lines.len(),
{
    if lines.len() == 0 {
        seq![]
    } else {
        let before = tags_on(lines.drop_last(), branch, repo);
        match lines.last().commit {
            Some(c) => before.push((c.commit_id, branch, repo)),
            None => before,
        }
    }
}

/// The tags that the first `n` repositories of a workspace give.
pub open spec fn repo_tags<P>(w: WorkspaceLogsView<P>, n: nat) -> Tags
    decreases n,
{
    if n == 0 {
        seq![]
    } else {
        repo_tags(w, (n - 1) as nat) + match jj_stack(w, n - 1) {
            Some(lines) => tags_on(lines, w.ws.branch, w.ws.repos[n - 1].name),
            None => seq![],
        }
    }
}

/// The tags that the workspaces give.
pub open spec fn all_tags<P>(workspaces: Seq<WorkspaceLogsView<P>>) -> Tags
    decreases workspaces.len(),
{
    if workspaces.len() == 0 {
        seq![]
    } else {
        let w = workspaces.last();
        all_tags(workspaces.drop_last()) + repo_tags(w, w.ws.repos.len())
    }
}

/// The branches that hold the commit `id`, in the order of the tags.
pub open spec fn branches_of(tags: Tags, id: Seq<char>) -> Seq<Seq<char>>
    decreases tags.len(),
{
    if tags.len() == 0 {
        seq![]
    } else {
        let before = branches_of(tags.drop_last(), id);
        if tags.last().0 == id {
            before.push(tags.last().1)
        } else {
            before
        }
    }
}

fn add_tags(lines: &Vec<LogLine>, branch: &String, repo: &String, out: &mut CommitTags)
    ensures
        final(out).deep_view() == old(out).deep_view() + tags_on(lines.deep_view(), branch@, repo@),
{
    let ghost all = lines.deep_view();
    let ghost start = out.deep_view();
    let mut i: usize = 0;
    assert(out.deep_view() =~= start + tags_on(all.take(0), branch@, repo@));
    while i < lines.len()
        invariant
            i <= lines.len(),
            all == lines.deep_view(),
            out.deep_view() =~= start + tags_on(all.take(i as int), branch@, repo@),
        decreases lines.len() - i,
    {
        let ghost before = out.deep_view();
        proof {
            assert(all.take(i + 1).drop_last() =~= all.take(i as int));
            assert(all.take(i + 1).last() == lines@[i as int].deep_view());
        }
        if let Some(c) = &lines[i].commit {
            let tag = (c.commit_id.clone(), branch.clone(), repo.clone());
            out.push(tag);
            assert(out.deep_view() =~= before.push(tag.deep_view()));
        }
        i += 1;
    }
    assert(all.take(i as int) =~= all);
}

/// For every commit in the stacks of the workspaces, which workspace and repository hold it.
pub fn build_commit_tags<P>(workspaces: &Vec<WorkspaceLogs<P>>) -> (out: CommitTags)
    ensures
        out.deep_view() == all_tags(workspaces.deep_view()),
{
    let ghost all = workspaces.deep_view();
    let mut out: CommitTags = Vec::new();
    let mut i: usize = 0;
    assert(out.deep_view() =~= all_tags(all.take(0)));
    while i < workspaces.len()
        invariant
            i <= workspaces.len(),
            all == workspaces.deep_view(),
            out.deep_view() == all_tags(all.take(i as int)),
        decreases workspaces.len() - i,
    {
        let w = &workspaces[i];
        let ghost v = w.deep_view();
        let ghost start = out.deep_view();
        let mut k: usize = 0;
        assert(out.deep_view() =~= start + repo_tags(v, 0));
        while k < w.ws.repos.len()
            invariant
                k <= w.ws.repos.len(),
                v == w.deep_view(),
                out.deep_view() == start + repo_tags(v, k as nat),
            decreases w.ws.repos.len() - k,
        {
            let ghost before = out.deep_view();
            assert(v.ws.repos[k as int] == w.ws.repos@[k as int].deep_view());
            if let Some(lines) = find_stack(w, k) {
                add_tags(lines, &w.ws.branch, &w.ws.repos[k].name, &mut out);
            }
            assert(out.deep_view() =~= start + repo_tags(v, (k + 1) as nat));
            k += 1;
        }
        i += 1;
        proof {
            let t = all.take(i as int);
            assert(t.drop_last() =~= all.take(i - 1));
            assert(t.last() == v);
        }
    }
    assert(all.take(i as int) =~= all);
    out
}

/// The branches that hold the commit `id`.
pub fn branches_with(tags: &CommitTags, id: &str) -> (out: Vec<String>)
    ensures
        out.deep_view() == branches_of(tags.deep_view(), id@),
{
    let ghost all = tags.deep_view();
    let mut out: Vec<String> = Vec::new();
    let mut i: usize = 0;
    while i < tags.len()
        invariant
            i <= tags.len(),
            all == tags.deep_view(),
            out.deep_view() =~= branches_of(all.take(i as int), id@),
        decreases tags.len() - i,
    {
        let ghost before = out.deep_view();
        proof {
            assert(all.take(i + 1).drop_last() =~= all.take(i as int));
            assert(all.take(i + 1).last() == tags@[i as int].deep_view());
        }
        if text::same_text(tags[i].0.as_str(), id) {
            let b = tags[i].1.clone();
            out.push(b);
            assert(out.deep_view() =~= before.push(b@));
        }
        i += 1;
    }
    assert(all.take(i as int) =~= all);
    out
}

// ---------------------------------------------------------------------------------------------
// Which repositories to ask GitHub about

/// A repository on GitHub: owner and name.
pub type RepoKey = (Seq<char>, Seq<char>);

/// The repository of a commit's pull request.
pub open spec fn pr_repo(l: LogLineView) -> Option<RepoKey> {
    match l.commit {
        Some(c) => match c.pr_url {
            Some(url) => match gh::pr_url_parts(url) {
                Some((owner, repo, _)) => Some((owner, repo)),
                None => None,
            },
            None => None,
        },
        None => None,
    }
}

/// The repositories of the pull requests on `lines`.
pub open spec fn repos_on(lines: Seq<LogLineView>) -> Set<RepoKey> {
    Set::new(|k: RepoKey| exists|i: int| 0 <= i < lines.len() && pr_repo(#[trigger] lines[i]) == Some(k))
}

/// The repositories of the pull requests in the stacks of a workspace.
pub open spec fn ws_repos<P>(w: WorkspaceLogsView<P>) -> Set<RepoKey> {
    Set::new(
        |k: RepoKey|
            exists|i: int|
                0 <= i < w.ws.repos.len() && (#[trigger] jj_stack(w, i) matches Some(lines)
                    && repos_on(lines).contains(k)),
    )
}

/// The repositories of the pull requests in all stacks and in the logs of the sources.
pub open spec fn known_repos<P>(workspaces: Seq<WorkspaceLogsView<P>>, sources: Stacks) -> Set<
    RepoKey,
> {
    Set::new(
        |k: RepoKey|
            {
                ||| exists|i: int| 0 <= i < workspaces.len() && ws_repos(#[trigger] workspaces[i]).contains(k)
                ||| exists|i: int|
                    0 <= i < sources.len() && (#[trigger] sources[i] matches Some(lines) && repos_on(
                        lines,
                    ).contains(k))
            },
    )
}

fn holds_repo(out: &Vec<(String, String)>, owner: &String, repo: &String) -> (b: bool)
    ensures
        b == out.deep_view().contains((owner@, repo@)),
{
    let ghost all = out.deep_view();
    let mut i: usize = 0;
    while i < out.len()
        invariant
            i <= out.len(),
            all == out.deep_view(),
            forall|j: int| 0 <= j < i ==> #[trigger] all[j] != (owner@, repo@),
        decreases out.len() - i,
    {
        assert(all[i as int] == out@[i as int].deep_view());
        if out[i].0 == *owner && out[i].1 == *repo {
            return true;
        }
        i += 1;
    }
    false
}

fn add_repos(lines: &Vec<LogLine>, out: &mut Vec<(String, String)>)
    requires
        old(out).deep_view().no_duplicates(),
    ensures
        final(out).deep_view().no_duplicates(),
        forall|k: RepoKey|
            #[trigger] final(out).deep_view().contains(k) <==> old(out).deep_view().contains(k)
                || repos_on(lines.deep_view()).contains(k),
{
    let ghost all = lines.deep_view();
    let ghost start = out.deep_view();
    let mut i: usize = 0;
    while i < lines.len()
        invariant
            i <= lines.len(),
            all == lines.deep_view(),
            out.deep_view().no_duplicates(),
            forall|k: RepoKey|
                #[trigger] out.deep_view().contains(k) <==> start.contains(k) || (exists|j: int|
                    0 <= j < i && pr_repo(#[trigger] all[j]) == Some(k)),
        decreases lines.len() - i,
    {
        let ghost before = out.deep_view();
        assert(all[i as int] == lines@[i as int].deep_view());
        if let Some(c) = &lines[i].commit {
            if let Some(url) = &c.pr_url {
                if let Some((owner, repo, _)) = gh::parse_pr_url(url.as_str()) {
                    let ghost key = (owner@, repo@);
                    assert(pr_repo(all[i as int]) == Some(key));
                    if !holds_repo(out, &owner, &repo) {
                        out.push((owner, repo));
                        proof {
                            assert(out.deep_view() =~= before.push(key));
                            assert forall|k: RepoKey| #[trigger]
                                out.deep_view().contains(k) <==> before.contains(k) || k == key by {
                                if before.contains(k) {
                                    let j = choose|j: int| 0 <= j < before.len() && before[j] == k;
                                    assert(out.deep_view()[j] == k);
                                }
                                if k == key {
                                    assert(out.deep_view()[before.len() as int] == k);
                                }
                            }
                        }
                    }
                }
            }
        }
        i += 1;
    }
}

/// The repositories that the pull requests in the workspaces' stacks and in the sources' logs
/// belong to, each once.
pub fn collect_pr_repos<P>(
    workspaces: &Vec<WorkspaceLogs<P>>,
    sources: &Vec<Option<Vec<LogLine>>>,
) -> (out: Vec<(String, String)>)
    ensures
        out.deep_view().no_duplicates(),
        out.deep_view().to_set() == known_repos(workspaces.deep_view(), sources.deep_view()),
{
    let ghost all = workspaces.deep_view();
    let ghost logs = sources.deep_view();
    let mut out: Vec<(String, String)> = Vec::new();
    let mut i: usize = 0;
    while i < workspaces.len()
        invariant
            i <= workspaces.len(),
            all == workspaces.deep_view(),
            out.deep_view().no_duplicates(),
            forall|k: RepoKey|
                #[trigger] out.deep_view().contains(k) <==> (exists|j: int|
                    0 <= j < i && ws_repos(#[trigger] all[j]).contains(k)),
        decreases workspaces.len() - i,
    {
        let w = &workspaces[i];
        let ghost v = w.deep_view();
        let ghost start = out.deep_view();
        assert(all[i as int] == v);
        let mut k: usize = 0;
        while k < w.ws.repos.len()
            invariant
                k <= w.ws.repos.len(),
                v == w.deep_view(),
                out.deep_view().no_duplicates(),
                forall|q: RepoKey|
                    #[trigger] out.deep_view().contains(q) <==> start.contains(q) || (exists|j: int|
                        0 <= j < k && (#[trigger] jj_stack(v, j) matches Some(lines) && repos_on(
                            lines,
                        ).contains(q))),
            decreases w.ws.repos.len() - k,
        {
            match find_stack(w, k) {
                Some(lines) => {
                    add_repos(lines, &mut out);
                },
                None => {
                    assert(jj_stack(v, k as int) is None);
                },
            }
            k += 1;
        }
        assert(v.ws.repos.len() == k);
        i += 1;
    }
    let ghost start = out.deep_view();
    let mut s: usize = 0;
    while s < sources.len()
        invariant
            s <= sources.len(),
            logs == sources.deep_view(),
            out.deep_view().no_duplicates(),
            forall|q: RepoKey|
                #[trigger] out.deep_view().contains(q) <==> start.contains(q) || (exists|j: int|
                    0 <= j < s && (#[trigger] logs[j] matches Some(lines) && repos_on(
                        lines,
                    ).contains(q))),
        decreases sources.len() - s,
    {
        assert(logs[s as int] == sources@[s as int].deep_view());
        if let Some(lines) = &sources[s] {
            add_repos(lines, &mut out);
        }
        s += 1;
    }
    assert(out.deep_view().to_set() =~= known_repos(all, logs));
    out
}

// ---------------------------------------------------------------------------------------------
// The views, in terms of what stands in the logs

/// Trimming drops lines at the top only, and of the commits only those that are empty and have no
/// title.
pub proof fn law_trimming_drops_only_blank(lines: Seq<LogLineView>)
    ensures
        trimmed_top(lines).len() <= lines.len(),
        trimmed_top(lines) == lines.skip(lines.len() - trimmed_top(lines).len()),
        forall|i: int|
            0 <= i < lines.len() - trimmed_top(lines).len() && (#[trigger] lines[i]).commit is Some
                ==> lines[i].commit->0.empty == true && lines[i].commit->0.title.len() == 0,
    decreases lines.len(),
{
    lemma_connectors_none(lines);
    let n = connectors(lines);
    if n < lines.len() && blank(lines[n]) {
        let rest = lines.skip(n + 1);
        law_trimming_drops_only_blank(rest);
        let t = trimmed_top(rest);
        assert(t =~= lines.skip(lines.len() - t.len()));
        assert forall|i: int|
            0 <= i < lines.len() - t.len() && (#[trigger] lines[i]).commit is Some implies lines[i].commit->0.empty
            == true && lines[i].commit->0.title.len() == 0 by {
            if i > n {
                assert(rest[i - n - 1] == lines[i]);
            }
        }
    } else if n < lines.len() {
        assert(lines.skip(0) =~= lines);
    } else {
        assert(trimmed_top(lines) =~= lines.skip(lines.len() as int));
    }
}

proof fn lemma_connectors_none(lines: Seq<LogLineView>)
    ensures
        0 <= connectors(lines) <= lines.len(),
        connectors(lines) < lines.len() ==> lines[connectors(lines)].commit is Some,
        forall|i: int| 0 <= i < connectors(lines) ==> (#[trigger] lines[i]).commit is None,
    decreases lines.len(),
{
    if lines.len() > 0 && lines[0].commit is None {
        let t = lines.drop_first();
        lemma_connectors_none(t);
        assert forall|i: int| 0 <= i < connectors(lines) implies (#[trigger] lines[i]).commit is None by {
            if i > 0 {
                assert(t[i - 1] == lines[i]);
            }
        }
    }
}

/// A log whose first commit has changes, or a title, is left as it is.
pub proof fn law_first_commit_with_content_stays(lines: Seq<LogLineView>, i: int)
    requires
        0 <= i < lines.len(),
        forall|j: int| 0 <= j < i ==> (#[trigger] lines[j]).commit is None,
        lines[i].commit is Some,
        lines[i].commit->0.empty == false || lines[i].commit->0.title.len() > 0,
    ensures
        trimmed_top(lines) == lines,
{
    lemma_connectors(lines, i);
}

/// A first commit that is empty and has no title is dropped with all that stands above it, and the
/// rest is trimmed in the same way.
pub proof fn law_first_blank_commit_goes(lines: Seq<LogLineView>, i: int)
    requires
        0 <= i < lines.len(),
        forall|j: int| 0 <= j < i ==> (#[trigger] lines[j]).commit is None,
        lines[i].commit is Some,
        lines[i].commit->0.empty == true,
        lines[i].commit->0.title.len() == 0,
    ensures
        trimmed_top(lines) == trimmed_top(lines.skip(i + 1)),
{
    lemma_connectors(lines, i);
}

/// Of a log without commits nothing is left.
pub proof fn law_no_commits_nothing_left(lines: Seq<LogLineView>)
    requires
        forall|j: int| 0 <= j < lines.len() ==> (#[trigger] lines[j]).commit is None,
    ensures
        trimmed_top(lines).len() == 0,
{
    lemma_connectors(lines, lines.len() as int);
}

/// A commit whose pull request is known says all four things that are known of it.
pub proof fn law_known_is_annotated(
    c: CommitView,
    map: Map<gh::PrKey, PrInfoView>,
    k: gh::PrKey,
)
    requires
        c.pr_url is Some,
        gh::pr_url_parts(c.pr_url->0) == Some(k),
        map.contains_key(k),
    ensures
        annotated(c, map).is_draft == Some(map[k].is_draft),
        annotated(c, map).pr_title == Some(map[k].title),
        annotated(c, map).pr_state == Some(map[k].state),
        annotated(c, map).review_decision == Some(map[k].review_decision),
{
}

/// A commit without a pull request, or with one of which nothing is known, stays as it is.
pub proof fn law_unknown_is_left(c: CommitView, map: Map<gh::PrKey, PrInfoView>)
    requires
        c.pr_url is Some ==> (gh::pr_url_parts(c.pr_url->0) is None || !map.contains_key(
            gh::pr_url_parts(c.pr_url->0)->0,
        )),
    ensures
        annotated(c, map) == c,
{
}

/// Annotating a log keeps every line, its graph, and of its commit all that does not come from
/// GitHub.
pub proof fn law_annotating_keeps_the_log(
    lines: Seq<LogLineView>,
    map: Map<gh::PrKey, PrInfoView>,
)
    ensures
        annotated_lines(lines, map).len() == lines.len(),
        forall|i: int|
            0 <= i < lines.len() ==> (#[trigger] annotated_lines(lines, map)[i]).graph
                == lines[i].graph,
        forall|i: int|
            0 <= i < lines.len() && lines[i].commit is None ==> (#[trigger] annotated_lines(
                lines,
                map,
            )[i]).commit is None,
        forall|i: int|
            0 <= i < lines.len() && lines[i].commit is Some ==> {
                let new = (#[trigger] annotated_lines(lines, map)[i]).commit;
                &&& new == Some(annotated(lines[i].commit->0, map))
                &&& new->0.change_id == lines[i].commit->0.change_id
                &&& new->0.commit_id == lines[i].commit->0.commit_id
                &&& new->0.empty == lines[i].commit->0.empty
                &&& new->0.title == lines[i].commit->0.title
                &&& new->0.parents == lines[i].commit->0.parents
                &&& new->0.pr_url == lines[i].commit->0.pr_url
                &&& new->0.pr_number == lines[i].commit->0.pr_number
            },
{
}

/// Every jj repository of a workspace is shown once, in the workspace's order, under its name; with
/// its stack trimmed and annotated where there is one, else with no lines. No other is shown.
pub proof fn law_shown_repositories<P>(
    w: WorkspaceLogsView<P>,
    map: Map<gh::PrKey, PrInfoView>,
) -> (p: Seq<int>)
    ensures
        p.len() == ws_lines(w, map).len(),
        forall|k: int|
            0 <= k < p.len() ==> 0 <= #[trigger] p[k] < w.ws.repos.len() && w.ws.repos[p[k]].kind
                == RepoKind::Jj && ws_lines(w, map)[k].0 == w.ws.repos[p[k]].name,
        forall|k: int|
            0 <= k < p.len() ==> ws_lines(w, map)[k].1 == (if #[trigger] p[k] < w.stacks.len()
                && w.stacks[p[k]] is Some {
                annotated_lines(trimmed_top(w.stacks[p[k]]->0), map)
            } else {
                Seq::empty()
            }),
        forall|j: int, k: int| 0 <= j < k < p.len() ==> #[trigger] p[j] < #[trigger] p[k],
        forall|i: int|
            0 <= i < w.ws.repos.len() && (#[trigger] w.ws.repos[i]).kind == RepoKind::Jj
                ==> p.contains(i),
{
    lemma_shown_repositories(w, map, w.ws.repos.len())
}

proof fn lemma_shown_repositories<P>(
    w: WorkspaceLogsView<P>,
    map: Map<gh::PrKey, PrInfoView>,
    n: nat,
) -> (p: Seq<int>)
    requires
        n <= w.ws.repos.len(),
    ensures
        p.len() == repo_views(w, map, n).len(),
        forall|k: int|
            0 <= k < p.len() ==> 0 <= #[trigger] p[k] < n && w.ws.repos[p[k]].kind == RepoKind::Jj
                && repo_views(w, map, n)[k].0 == w.ws.repos[p[k]].name,
        forall|k: int|
            0 <= k < p.len() ==> repo_views(w, map, n)[k].1 == (if #[trigger] p[k] < w.stacks.len()
                && w.stacks[p[k]] is Some {
                annotated_lines(trimmed_top(w.stacks[p[k]]->0), map)
            } else {
                Seq::empty()
            }),
        forall|j: int, k: int| 0 <= j < k < p.len() ==> #[trigger] p[j] < #[trigger] p[k],
        forall|i: int|
            0 <= i < n && (#[trigger] w.ws.repos[i]).kind == RepoKind::Jj ==> p.contains(i),
    decreases n,
{
    if n == 0 {
        seq![]
    } else {
        let q = lemma_shown_repositories(w, map, (n - 1) as nat);
        let p = if w.ws.repos[n - 1].kind == RepoKind::Jj {
            q.push(n - 1)
        } else {
            q
        };
        assert forall|i: int|
            0 <= i < n && (#[trigger] w.ws.repos[i]).kind == RepoKind::Jj implies p.contains(i) by {
            if i < n - 1 {
                assert(q.contains(i));
                let k = choose|k: int| 0 <= k < q.len() && q[k] == i;
                assert(p[k] == i);
            } else {
                assert(p[q.len() as int] == i);
            }
        }
        p
    }
}

/// Every commit of a log is tagged once, in the log's order, with the branch and the repository.
pub proof fn law_tags_of_a_log(
    lines: Seq<LogLineView>,
    branch: Seq<char>,
    repo: Seq<char>,
) -> (p: Seq<int>)
    ensures
        p.len() == tags_on(lines, branch, repo).len(),
        forall|k: int|
            0 <= k < p.len() ==> 0 <= #[trigger] p[k] < lines.len() && lines[p[k]].commit is Some
                && tags_on(lines, branch, repo)[k] == (
                lines[p[k]].commit->0.commit_id,
                branch,
                repo,
            ),
        forall|j: int, k: int| 0 <= j < k < p.len() ==> #[trigger] p[j] < #[trigger] p[k],
        forall|i: int| 0 <= i < lines.len() && (#[trigger] lines[i]).commit is Some ==> p.contains(i),
    decreases lines.len(),
{
    if lines.len() == 0 {
        seq![]
    } else {
        let t = lines.drop_last();
        let n = lines.len() - 1;
        let q = law_tags_of_a_log(t, branch, repo);
        let p = if lines.last().commit is Some {
            q.push(n)
        } else {
            q
        };
        assert forall|k: int| 0 <= k < p.len() implies 0 <= #[trigger] p[k] < lines.len()
            && lines[p[k]].commit is Some && tags_on(lines, branch, repo)[k] == (
            lines[p[k]].commit->0.commit_id,
            branch,
            repo,
        ) by {
            if k < q.len() {
                assert(p[k] == q[k]);
                assert(t[q[k]] == lines[q[k]]);
            }
        }
        assert forall|i: int| 0 <= i < lines.len() && (#[trigger] lines[i]).commit is Some implies p.contains(
            i,
        ) by {
            if i < n {
                assert(t[i] == lines[i]);
                assert(q.contains(i));
                let k = choose|k: int| 0 <= k < q.len() && q[k] == i;
                assert(p[k] == i);
            } else {
                assert(p[q.len() as int] == i);
            }
        }
        p
    }
}

/// Every commit in a jj repository's stack is tagged with the workspace's branch and the
/// repository's name.
pub proof fn law_commit_is_tagged<P>(
    workspaces: Seq<WorkspaceLogsView<P>>,
    i: int,
    r: int,
    l: int,
)
    requires
        0 <= i < workspaces.len(),
        0 <= r < workspaces[i].ws.repos.len(),
        workspaces[i].ws.repos[r].kind == RepoKind::Jj,
        r < workspaces[i].stacks.len(),
        workspaces[i].stacks[r] is Some,
        0 <= l < workspaces[i].stacks[r]->0.len(),
        workspaces[i].stacks[r]->0[l].commit is Some,
    ensures
        all_tags(workspaces).contains(
            (
                workspaces[i].stacks[r]->0[l].commit->0.commit_id,
                workspaces[i].ws.branch,
                workspaces[i].ws.repos[r].name,
            ),
        ),
    decreases workspaces.len(),
{
    let w = workspaces[i];
    let tag = (w.stacks[r]->0[l].commit->0.commit_id, w.ws.branch, w.ws.repos[r].name);
    let t = workspaces.drop_last();
    let last = workspaces.last();
    let a = all_tags(t);
    let b = repo_tags(last, last.ws.repos.len());
    if i < workspaces.len() - 1 {
        assert(t[i] == w);
        law_commit_is_tagged(t, i, r, l);
        let k = choose|k: int| 0 <= k < a.len() && a[k] == tag;
        assert((a + b)[k] == tag);
    } else {
        lemma_repo_tagged(w, w.ws.repos.len(), r, l);
        let k = choose|k: int| 0 <= k < b.len() && b[k] == tag;
        assert((a + b)[a.len() + k] == tag);
    }
}

proof fn lemma_repo_tagged<P>(w: WorkspaceLogsView<P>, n: nat, r: int, l: int)
    requires
        0 <= r < n <= w.ws.repos.len(),
        w.ws.repos[r].kind == RepoKind::Jj,
        r < w.stacks.len(),
        w.stacks[r] is Some,
        0 <= l < w.stacks[r]->0.len(),
        w.stacks[r]->0[l].commit is Some,
    ensures
        repo_tags(w, n).contains(
            (w.stacks[r]->0[l].commit->0.commit_id, w.ws.branch, w.ws.repos[r].name),
        ),
    decreases n,
{
    let tag = (w.stacks[r]->0[l].commit->0.commit_id, w.ws.branch, w.ws.repos[r].name);
    let a = repo_tags(w, (n - 1) as nat);
    if r < n - 1 {
        lemma_repo_tagged(w, (n - 1) as nat, r, l);
        let k = choose|k: int| 0 <= k < a.len() && a[k] == tag;
        assert(repo_tags(w, n)[k] == tag);
    } else {
        let lines = w.stacks[r]->0;
        let b = tags_on(lines, w.ws.branch, w.ws.repos[r].name);
        let p = law_tags_of_a_log(lines, w.ws.branch, w.ws.repos[r].name);
        assert(lines[l].commit is Some);
        assert(p.contains(l));
        let k = choose|k: int| 0 <= k < p.len() && p[k] == l;
        assert(b[k] == tag);
        assert(repo_tags(w, n) == a + b);
        assert((a + b)[a.len() + k] == tag);
    }
}

/// Every tag comes from a commit in a jj repository's stack, and names the workspace's branch and
/// the repository.
pub proof fn law_tag_has_a_commit<P>(workspaces: Seq<WorkspaceLogsView<P>>, k: int) -> (out: (
    int,
    int,
    int,
))
    requires
        0 <= k < all_tags(workspaces).len(),
    ensures
        ({
            let (i, r, l) = out;
            &&& 0 <= i < workspaces.len()
            &&& 0 <= r < workspaces[i].ws.repos.len()
            &&& workspaces[i].ws.repos[r].kind == RepoKind::Jj
            &&& r < workspaces[i].stacks.len()
            &&& workspaces[i].stacks[r] is Some
            &&& 0 <= l < workspaces[i].stacks[r]->0.len()
            &&& workspaces[i].stacks[r]->0[l].commit is Some
            &&& all_tags(workspaces)[k] == (
                workspaces[i].stacks[r]->0[l].commit->0.commit_id,
                workspaces[i].ws.branch,
                workspaces[i].ws.repos[r].name,
            )
        }),
    decreases workspaces.len(),
{
    let t = workspaces.drop_last();
    let w = workspaces.last();
    let a = all_tags(t);
    if k < a.len() {
        let (i, r, l) = law_tag_has_a_commit(t, k);
        assert(t[i] == workspaces[i]);
        (i, r, l)
    } else {
        let (r, l) = lemma_repo_tag(w, w.ws.repos.len(), k - a.len());
        (workspaces.len() - 1, r, l)
    }
}

proof fn lemma_repo_tag<P>(w: WorkspaceLogsView<P>, n: nat, k: int) -> (out: (int, int))
    requires
        n <= w.ws.repos.len(),
        0 <= k < repo_tags(w, n).len(),
    ensures
        ({
            let (r, l) = out;
            &&& 0 <= r < n
            &&& w.ws.repos[r].kind == RepoKind::Jj
            &&& r < w.stacks.len()
            &&& w.stacks[r] is Some
            &&& 0 <= l < w.stacks[r]->0.len()
            &&& w.stacks[r]->0[l].commit is Some
            &&& repo_tags(w, n)[k] == (
                w.stacks[r]->0[l].commit->0.commit_id,
                w.ws.branch,
                w.ws.repos[r].name,
            )
        }),
    decreases n,
{
    let a = repo_tags(w, (n - 1) as nat);
    if k < a.len() {
        lemma_repo_tag(w, (n - 1) as nat, k)
    } else {
        let lines = w.stacks[n - 1]->0;
        let p = law_tags_of_a_log(lines, w.ws.branch, w.ws.repos[n - 1].name);
        assert(repo_tags(w, n) == a + tags_on(lines, w.ws.branch, w.ws.repos[n - 1].name));
        (n - 1, p[k - a.len()])
    }
}

/// The tags of two lists of workspaces, one behind the other, stand one behind the other.
pub proof fn law_tags_in_parts<P>(a: Seq<WorkspaceLogsView<P>>, b: Seq<WorkspaceLogsView<P>>)
    ensures
        all_tags(a + b) == all_tags(a) + all_tags(b),
    decreases b.len(),
{
    if b.len() == 0 {
        assert(a + b =~= a);
        assert(all_tags(a) + all_tags(b) =~= all_tags(a));
    } else {
        let t = b.drop_last();
        law_tags_in_parts(a, t);
        assert((a + b).drop_last() =~= a + t);
        assert((a + b).last() == b.last());
        assert(all_tags(a + b) =~= all_tags(a) + all_tags(b));
    }
}

/// The branches of a commit are those of the tags with its ID, all of them, in their order.
pub proof fn law_branches_of_a_commit(tags: Tags, id: Seq<char>) -> (p: Seq<int>)
    ensures
        p.len() == branches_of(tags, id).len(),
        forall|k: int|
            0 <= k < p.len() ==> 0 <= #[trigger] p[k] < tags.len() && tags[p[k]].0 == id
                && branches_of(tags, id)[k] == tags[p[k]].1,
        forall|j: int, k: int| 0 <= j < k < p.len() ==> #[trigger] p[j] < #[trigger] p[k],
        forall|i: int| 0 <= i < tags.len() && (#[trigger] tags[i]).0 == id ==> p.contains(i),
    decreases tags.len(),
{
    if tags.len() == 0 {
        seq![]
    } else {
        let t = tags.drop_last();
        let n = tags.len() - 1;
        let q = law_branches_of_a_commit(t, id);
        let p = if tags.last().0 == id {
            q.push(n)
        } else {
            q
        };
        assert forall|k: int| 0 <= k < p.len() implies 0 <= #[trigger] p[k] < tags.len()
            && tags[p[k]].0 == id && branches_of(tags, id)[k] == tags[p[k]].1 by {
            if k < q.len() {
                assert(p[k] == q[k]);
                assert(t[q[k]] == tags[q[k]]);
            }
        }
        assert forall|i: int| 0 <= i < tags.len() && (#[trigger] tags[i]).0 == id implies p.contains(i) by {
            if i < n {
                assert(t[i] == tags[i]);
                assert(q.contains(i));
                let k = choose|k: int| 0 <= k < q.len() && q[k] == i;
                assert(p[k] == i);
            } else {
                assert(p[q.len() as int] == i);
            }
        }
        p
    }
}

/// GitHub is asked about the repository of every pull request on a commit of a jj repository's
/// stack.
pub proof fn law_stack_is_asked_about<P>(
    workspaces: Seq<WorkspaceLogsView<P>>,
    sources: Stacks,
    i: int,
    r: int,
    l: int,
    k: gh::PrKey,
)
    requires
        0 <= i < workspaces.len(),
        0 <= r < workspaces[i].ws.repos.len(),
        workspaces[i].ws.repos[r].kind == RepoKind::Jj,
        r < workspaces[i].stacks.len(),
        workspaces[i].stacks[r] is Some,
        0 <= l < workspaces[i].stacks[r]->0.len(),
        workspaces[i].stacks[r]->0[l].commit is Some,
        workspaces[i].stacks[r]->0[l].commit->0.pr_url is Some,
        gh::pr_url_parts(workspaces[i].stacks[r]->0[l].commit->0.pr_url->0) == Some(k),
    ensures
        known_repos(workspaces, sources).contains((k.0, k.1)),
{
    let w = workspaces[i];
    let lines = w.stacks[r]->0;
    assert(pr_repo(lines[l]) == Some((k.0, k.1)));
    assert(repos_on(lines).contains((k.0, k.1)));
    assert(jj_stack(w, r) == Some(lines));
    assert(ws_repos(w).contains((k.0, k.1)));
    assert(ws_repos(workspaces[i]).contains((k.0, k.1)));
}

/// GitHub is asked about the repository of every pull request on a commit of a source's log.
pub proof fn law_source_is_asked_about<P>(
    workspaces: Seq<WorkspaceLogsView<P>>,
    sources: Stacks,
    i: int,
    l: int,
    k: gh::PrKey,
)
    requires
        0 <= i < sources.len(),
        sources[i] is Some,
        0 <= l < sources[i]->0.len(),
        sources[i]->0[l].commit is Some,
        sources[i]->0[l].commit->0.pr_url is Some,
        gh::pr_url_parts(sources[i]->0[l].commit->0.pr_url->0) == Some(k),
    ensures
        known_repos(workspaces, sources).contains((k.0, k.1)),
{
    let lines = sources[i]->0;
    assert(pr_repo(lines[l]) == Some((k.0, k.1)));
    assert(repos_on(lines).contains((k.0, k.1)));
    assert(sources[i] == Some(lines));
}

/// GitHub is asked about no repository but those of pull requests on commits of such stacks and
/// logs.
pub proof fn law_asked_about_only_these<P>(
    workspaces: Seq<WorkspaceLogsView<P>>,
    sources: Stacks,
    key: RepoKey,
) -> (c: CommitView)
    requires
        known_repos(workspaces, sources).contains(key),
    ensures
        c.pr_url is Some,
        gh::pr_url_parts(c.pr_url->0) is Some,
        match gh::pr_url_parts(c.pr_url->0) {
            Some((owner, repo, _)) => key == (owner, repo),
            None => false,
        },
        (exists|i: int, r: int, l: int|
            0 <= i < workspaces.len() && 0 <= r < workspaces[i].ws.repos.len()
                && workspaces[i].ws.repos[r].kind == RepoKind::Jj && r < workspaces[i].stacks.len()
                && workspaces[i].stacks[r] is Some && 0 <= l < workspaces[i].stacks[r]->0.len()
                && (#[trigger] workspaces[i].stacks[r]->0[l]).commit == Some(c)) || (exists|i: int, l: int|
            0 <= i < sources.len() && sources[i] is Some && 0 <= l < sources[i]->0.len() && (
            #[trigger] sources[i]->0[l]).commit == Some(c)),
{
    if exists|i: int| 0 <= i < workspaces.len() && ws_repos(#[trigger] workspaces[i]).contains(key) {
        let i = choose|i: int|
            0 <= i < workspaces.len() && ws_repos(#[trigger] workspaces[i]).contains(key);
        let w = workspaces[i];
        let r = choose|r: int|
            0 <= r < w.ws.repos.len() && (#[trigger] jj_stack(w, r) matches Some(lines) && repos_on(
                lines,
            ).contains(key));
        let lines = w.stacks[r]->0;
        let l = choose|l: int| 0 <= l < lines.len() && pr_repo(#[trigger] lines[l]) == Some(key);
        assert(workspaces[i].stacks[r]->0[l].commit == Some(lines[l].commit->0));
        lines[l].commit->0
    } else {
        let i = choose|i: int|
            0 <= i < sources.len() && (#[trigger] sources[i] matches Some(lines) && repos_on(
                lines,
            ).contains(key));
        let lines = sources[i]->0;
        let l = choose|l: int| 0 <= l < lines.len() && pr_repo(#[trigger] lines[l]) == Some(key);
        assert(sources[i]->0[l].commit == Some(lines[l].commit->0));
        lines[l].commit->0
    }
}

} // verus!
