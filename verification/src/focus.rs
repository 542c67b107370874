//! Which commits of a source repository's log to show, and how they meet the graph that jj draws
//! of just these.
use vstd::prelude::*;

use crate::gh::PrState;
use crate::jj::Commit;
use crate::jj::CommitView;
use crate::jj::LogLine;
use crate::jj::LogLineView;

verus! {

/// The lines that carry a commit.
pub open spec fn commit_lines(lines: Seq<LogLineView>) -> Seq<LogLineView>
    decreases lines.len(),
{
    if lines.len() == 0 {
        seq![]
    } else {
        let before = commit_lines(lines.drop_last());
        if lines.last().commit is Some {
            before.push(lines.last())
        } else {
            before
        }
    }
}

/// Whether every line carries a commit.
pub open spec fn all_commits(lines: Seq<LogLineView>) -> bool {
    forall|i: int| 0 <= i < lines.len() ==> (#[trigger] lines[i]).commit is Some
}

/// The commit on line `i`.
pub open spec fn commit_at(lines: Seq<LogLineView>, i: int) -> CommitView {
    lines[i].commit->0
}

/// Whether a commit has a pull request that is open.
pub open spec fn open_pr(c: CommitView) -> bool {
    c.pr_url is Some && c.pr_state == Some(PrState::Open)
}

/// How often `id` is listed in `parents`.
pub open spec fn listed(parents: Seq<Seq<char>>, id: Seq<char>) -> nat
    decreases parents.len(),
{
    if parents.len() == 0 {
        0
    } else {
        listed(parents.drop_last(), id) + (if parents.last() == id {
            1nat
        } else {
            0nat
        })
    }
}

/// How often the commits list `id` as a parent.
pub open spec fn children(commits: Seq<LogLineView>, id: Seq<char>) -> nat
    decreases commits.len(),
{
    if commits.len() == 0 {
        0
    } else {
        children(commits.drop_last(), id) + listed(commits.last().commit->0.parents, id)
    }
}

/// Whether a commit is a merge, or a point where the visible history splits.
pub open spec fn pivotal(commits: Seq<LogLineView>, c: CommitView) -> bool {
    c.parents.len() >= 2 || children(commits, c.commit_id) >= 2
}

/// Whether the commit at `i` is shown for its own sake.
pub open spec fn kept(commits: Seq<LogLineView>, i: int) -> bool {
    open_pr(commit_at(commits, i)) || pivotal(commits, commit_at(commits, i))
}

/// Whether the commit at `i` has an open pull request.
pub open spec fn open_at(commits: Seq<LogLineView>, i: int) -> bool {
    0 <= i < commits.len() && open_pr(commit_at(commits, i))
}

/// Whether `i` stands between two commits with open pull requests, or is one.
pub open spec fn between_open(commits: Seq<LogLineView>, i: int) -> bool {
    &&& exists|a: int| a <= i && #[trigger] open_at(commits, a)
    &&& exists|b: int| i <= b && #[trigger] open_at(commits, b)
}

/// Whether the commit at `i` is shown: between open pull requests, those shown for their own sake
/// and their direct neighbours, without which jj could not draw where the history forks.
pub open spec fn shown(commits: Seq<LogLineView>, i: int) -> bool {
    &&& 0 <= i < commits.len()
    &&& between_open(commits, i)
    &&& kept(commits, i) || (i > 0 && kept(commits, i - 1)) || (i + 1 < commits.len() && kept(
        commits,
        i + 1,
    ))
}

/// Whether one of the lines carries the commit `id`.
pub open spec fn has_id(lines: Seq<LogLineView>, id: Seq<char>) -> bool {
    exists|j: int| 0 <= j < lines.len() && #[trigger] commit_at(lines, j).commit_id == id
}

/// The lines to show among the first `n` commits, each commit once.
pub open spec fn shown_below(commits: Seq<LogLineView>, n: nat) -> Seq<LogLineView>
    decreases n,
{
    if n == 0 {
        seq![]
    } else {
        let before = shown_below(commits, (n - 1) as nat);
        let i = n - 1;
        if shown(commits, i) && !has_id(before, commit_at(commits, i).commit_id) {
            before.push(commits[i])
        } else {
            before
        }
    }
}

/// The lines to show of a log.
pub open spec fn focused(lines: Seq<LogLineView>) -> Seq<LogLineView> {
    let commits = commit_lines(lines);
    shown_below(commits, commits.len())
}

proof fn lemma_commit_lines(lines: Seq<LogLineView>)
    ensures
        all_commits(commit_lines(lines)),
    decreases lines.len(),
{
    if lines.len() > 0 {
        lemma_commit_lines(lines.drop_last());
    }
}

fn commits_in(lines: Vec<LogLine>) -> (out: Vec<LogLine>)
    ensures
        out.deep_view() == commit_lines(lines.deep_view()),
{
    let ghost all = lines.deep_view();
    let mut out: Vec<LogLine> = Vec::new();
    for line in it: lines
        invariant
            it.seq() == lines@,
            all == lines.deep_view(),
            out.deep_view() =~= commit_lines(all.take(it.index() as int)),
    {
        let ghost n = it.index() as int;
        let ghost before = out.deep_view();
        let ghost v = line.deep_view();
        proof {
            assert(all[n] == v);
            assert(all.take(n + 1).drop_last() =~= all.take(n));
        }
        if line.commit.is_some() {
            out.push(line);
            assert(out.deep_view() =~= before.push(v));
        }
    }
    assert(all.take(all.len() as int) =~= all);
    out
}

proof fn lemma_listed_grows(parents: Seq<Seq<char>>, id: Seq<char>, k: int)
    requires
        0 <= k <= parents.len(),
    ensures
        listed(parents.take(k), id) <= listed(parents, id),
    decreases parents.len(),
{
    if k == parents.len() {
        assert(parents.take(k) =~= parents);
    } else {
        assert(parents.drop_last().take(k) =~= parents.take(k));
        lemma_listed_grows(parents.drop_last(), id, k);
    }
}

proof fn lemma_children_grow(commits: Seq<LogLineView>, id: Seq<char>, k: int)
    requires
        0 <= k <= commits.len(),
    ensures
        children(commits.take(k), id) <= children(commits, id),
    decreases commits.len(),
{
    if k == commits.len() {
        assert(commits.take(k) =~= commits);
    } else {
        assert(commits.drop_last().take(k) =~= commits.take(k));
        lemma_children_grow(commits.drop_last(), id, k);
    }
}

/// Whether the history splits at the commit `id`.
fn splits(commits: &Vec<LogLine>, id: &String) -> (b: bool)
    requires
        all_commits(commits.deep_view()),
    ensures
        b == (children(commits.deep_view(), id@) >= 2),
{
    let ghost all = commits.deep_view();
    let mut count: u8 = 0;
    let mut i: usize = 0;
    while i < commits.len()
        invariant
            i <= commits.len(),
            all == commits.deep_view(),
            all_commits(all),
            count < 2,
            count == children(all.take(i as int), id@),
        decreases commits.len() - i,
    {
        proof {
            assert(all.take(i + 1).drop_last() =~= all.take(i as int));
            assert(all.take(i + 1).last() == commits@[i as int].deep_view());
        }
        let ghost before = count as nat;
        if let Some(c) = &commits[i].commit {
            let ghost ps = c.parents.deep_view();
            assert(ps == all[i as int].commit->0.parents);
            let mut k: usize = 0;
            while k < c.parents.len()
                invariant
                    k <= c.parents.len(),
                    i < commits.len(),
                    all == commits.deep_view(),
                    ps == c.parents.deep_view(),
                    ps == all[i as int].commit->0.parents,
                    count < 2,
                    before == children(all.take(i as int), id@),
                    children(all.take(i + 1), id@) == before + listed(ps, id@),
                    count == before + listed(ps.take(k as int), id@),
                decreases c.parents.len() - k,
            {
                proof {
                    assert(ps.take(k + 1).drop_last() =~= ps.take(k as int));
                    assert(ps.take(k + 1).last() == c.parents@[k as int]@);
                }
                if c.parents[k] == *id {
                    count += 1;
                    if count >= 2 {
                        proof {
                            lemma_listed_grows(ps, id@, k + 1);
                            lemma_children_grow(all, id@, i + 1);
                        }
                        return true;
                    }
                }
                k += 1;
            }
            assert(ps.take(k as int) =~= ps);
        } else {
            assert(all[i as int].commit is Some);
        }
        i += 1;
    }
    assert(all.take(i as int) =~= all);
    false
}

fn has_open_pr(c: &Commit) -> (b: bool)
    ensures
        b == open_pr(c.deep_view()),
        b <==> c.pr_url is Some && c.pr_state == Some(PrState::Open),
{
    c.pr_url.is_some() && match c.pr_state {
        Some(s) => s == PrState::Open,
        None => false,
    }
}

fn holds_id(lines: &Vec<LogLine>, id: &String) -> (b: bool)
    requires
        all_commits(lines.deep_view()),
    ensures
        b == has_id(lines.deep_view(), id@),
{
    let ghost all = lines.deep_view();
    let mut i: usize = 0;
    while i < lines.len()
        invariant
            i <= lines.len(),
            all == lines.deep_view(),
            all_commits(all),
            forall|j: int| 0 <= j < i ==> #[trigger] commit_at(all, j).commit_id != id@,
        decreases lines.len() - i,
    {
        assert(all[i as int].commit is Some);
        if let Some(c) = &lines[i].commit {
            if c.commit_id == *id {
                assert(commit_at(all, i as int).commit_id == id@);
                return true;
            }
        }
        i += 1;
    }
    false
}

/// The commits to show on a source repository's page: those with an open pull request (draft or
/// ready), and between the first and the last of them the merges, the splits, and the direct
/// neighbours of all these. The same commit can stand in a log more than once; it is shown once.
pub fn focus_on_open(lines: Vec<LogLine>) -> (out: Vec<LogLine>)
    ensures
        out.deep_view() == focused(lines.deep_view()),
{
    proof {
        lemma_commit_lines(lines.deep_view());
    }
    let commits = commits_in(lines);
    let ghost all = commits.deep_view();
    // The window: from the first commit with an open pull request to the last.
    let mut keep: Vec<bool> = Vec::new();
    let mut first: Option<usize> = None;
    let mut last: usize = 0;
    let mut i: usize = 0;
    while i < commits.len()
        invariant
            i <= commits.len(),
            all == commits.deep_view(),
            all_commits(all),
            keep.len() == i,
            forall|j: int| 0 <= j < i ==> #[trigger] keep@[j] == kept(all, j),
            match first {
                Some(f) => f <= last < i && open_at(all, f as int) && open_at(all, last as int)
                    && (forall|j: int| 0 <= j < f ==> !#[trigger] open_at(all, j)) && (forall|j: int|
                    last < j < i ==> !#[trigger] open_at(all, j)),
                None => forall|j: int| 0 <= j < i ==> !#[trigger] open_at(all, j),
            },
        decreases commits.len() - i,
    {
        assert(all[i as int].commit is Some);
        if let Some(c) = &commits[i].commit {
            let open = has_open_pr(c);
            let pivot = c.parents.len() >= 2 || splits(&commits, &c.commit_id);
            keep.push(open || pivot);
            assert(commit_at(all, i as int) == c.deep_view());
            assert(open == open_at(all, i as int));
            if open {
                if first.is_none() {
                    first = Some(i);
                }
                last = i;
            }
        }
        i += 1;
    }
    let first: usize = match first {
        Some(f) => f,
        None => {
            proof {
                lemma_nothing_shown(all, all.len());
            }
            return Vec::new();
        },
    };
    let mut out: Vec<LogLine> = Vec::new();
    let mut n: usize = 0;
    assert(out.deep_view() =~= shown_below(all, 0));
    while n < commits.len()
        invariant
            n <= commits.len(),
            all == commits.deep_view(),
            all_commits(all),
            keep.len() == all.len(),
            forall|j: int| 0 <= j < keep.len() ==> #[trigger] keep@[j] == kept(all, j),
            first <= last < all.len(),
            open_at(all, first as int),
            open_at(all, last as int),
            forall|j: int| 0 <= j < first ==> !#[trigger] open_at(all, j),
            forall|j: int| last < j < all.len() ==> !#[trigger] open_at(all, j),
            all_commits(out.deep_view()),
            out.deep_view() == shown_below(all, n as nat),
        decreases commits.len() - n,
    {
        let ghost before = out.deep_view();
        assert(all[n as int].commit is Some);
        if let Some(c) = &commits[n].commit {
            assert(commit_at(all, n as int) == c.deep_view());
            let inside = first <= n && n <= last;
            assert(inside == between_open(all, n as int)) by {
                if inside {
                    assert(open_at(all, first as int) && open_at(all, last as int));
                }
            }
            let show = inside && (keep[n] || (n > 0 && keep[n - 1]) || (n + 1 < commits.len()
                && keep[n + 1]));
            assert(show == shown(all, n as int));
            if show && !holds_id(&out, &c.commit_id) {
                let line = commits[n].clone();
                out.push(line);
                assert(out.deep_view() =~= before.push(all[n as int]));
            }
        }
        n += 1;
    }
    out
}

proof fn lemma_nothing_shown(commits: Seq<LogLineView>, n: nat)
    requires
        forall|j: int| 0 <= j < commits.len() ==> !#[trigger] open_at(commits, j),
    ensures
        shown_below(commits, n) == Seq::<LogLineView>::empty(),
    decreases n,
{
    if n > 0 {
        lemma_nothing_shown(commits, (n - 1) as nat);
        if shown(commits, n - 1) {
            let a = choose|a: int| a <= n - 1 && #[trigger] open_at(commits, a);
            assert(open_at(commits, a));
        }
    }
}

// ---------------------------------------------------------------------------------------------
// What can be relied on

proof fn lemma_carried(lines: Seq<LogLineView>, i: int) -> (k: int)
    requires
        0 <= i < lines.len(),
        lines[i].commit is Some,
    ensures
        0 <= k < commit_lines(lines).len(),
        commit_lines(lines)[k] == lines[i],
    decreases lines.len(),
{
    if i == lines.len() - 1 {
        commit_lines(lines).len() - 1
    } else {
        lemma_carried(lines.drop_last(), i)
    }
}

proof fn lemma_shown_by_id(commits: Seq<LogLineView>, n: nat, i: int)
    requires
        0 <= i < n,
        shown(commits, i),
    ensures
        has_id(shown_below(commits, n), commit_at(commits, i).commit_id),
    decreases n,
{
    let id = commit_at(commits, i).commit_id;
    let before = shown_below(commits, (n - 1) as nat);
    let now = shown_below(commits, n);
    if i < n - 1 {
        lemma_shown_by_id(commits, (n - 1) as nat, i);
    }
    if has_id(before, id) {
        let j = choose|j: int| 0 <= j < before.len() && #[trigger] commit_at(before, j).commit_id == id;
        assert(commit_at(now, j).commit_id == id);
    } else {
        assert(commit_at(now, now.len() - 1).commit_id == id);
    }
}

/// From which commits the lines shown come.
proof fn lemma_shown_places(commits: Seq<LogLineView>, n: nat) -> (p: Seq<int>)
    requires
        n <= commits.len(),
    ensures
        p.len() == shown_below(commits, n).len(),
        forall|j: int|
            0 <= j < p.len() ==> #[trigger] p[j] < n && shown(commits, p[j]) && shown_below(
                commits,
                n,
            )[j] == commits[p[j]],
        forall|j: int, k: int| 0 <= j < k < p.len() ==> #[trigger] p[j] < #[trigger] p[k],
    decreases n,
{
    if n == 0 {
        seq![]
    } else {
        let q = lemma_shown_places(commits, (n - 1) as nat);
        let before = shown_below(commits, (n - 1) as nat);
        if shown(commits, n - 1) && !has_id(before, commit_at(commits, n - 1).commit_id) {
            q.push(n - 1)
        } else {
            q
        }
    }
}

/// The lines shown stand in the log's order, and each of them is a commit of the log between two
/// open pull requests: one that is open itself, a merge, a split, or a neighbour of such a one.
pub proof fn law_shown_in_order(lines: Seq<LogLineView>) -> (p: Seq<int>)
    ensures
        p.len() == focused(lines).len(),
        forall|j: int|
            0 <= j < p.len() ==> shown(commit_lines(lines), #[trigger] p[j]) && focused(lines)[j]
                == commit_lines(lines)[p[j]],
        forall|j: int, k: int| 0 <= j < k < p.len() ==> #[trigger] p[j] < #[trigger] p[k],
{
    lemma_shown_places(commit_lines(lines), commit_lines(lines).len())
}

/// Every commit with an open pull request is shown.
pub proof fn law_open_is_shown(lines: Seq<LogLineView>, i: int)
    requires
        0 <= i < lines.len(),
        lines[i].commit is Some,
        open_pr(commit_at(lines, i)),
    ensures
        has_id(focused(lines), commit_at(lines, i).commit_id),
{
    let commits = commit_lines(lines);
    let k = lemma_carried(lines, i);
    assert(open_at(commits, k));
    lemma_shown_by_id(commits, commits.len(), k);
}

/// Every merge and every split between two open pull requests is shown.
pub proof fn law_pivot_is_shown(lines: Seq<LogLineView>, i: int)
    requires
        0 <= i < commit_lines(lines).len(),
        pivotal(commit_lines(lines), commit_at(commit_lines(lines), i)),
        between_open(commit_lines(lines), i),
    ensures
        has_id(focused(lines), commit_at(commit_lines(lines), i).commit_id),
{
    let commits = commit_lines(lines);
    lemma_shown_by_id(commits, commits.len(), i);
}

/// No commit is shown twice.
pub proof fn law_shown_once(lines: Seq<LogLineView>, j: int, k: int)
    requires
        0 <= j < k < focused(lines).len(),
    ensures
        commit_at(focused(lines), j).commit_id != commit_at(focused(lines), k).commit_id,
{
    lemma_shown_once(commit_lines(lines), commit_lines(lines).len(), j, k);
}

proof fn lemma_shown_once(commits: Seq<LogLineView>, n: nat, j: int, k: int)
    requires
        0 <= j < k < shown_below(commits, n).len(),
    ensures
        commit_at(shown_below(commits, n), j).commit_id != commit_at(
            shown_below(commits, n),
            k,
        ).commit_id,
    decreases n,
{
    let before = shown_below(commits, (n - 1) as nat);
    if k < before.len() {
        lemma_shown_once(commits, (n - 1) as nat, j, k);
    } else {
        assert(shown_below(commits, n)[j] == before[j]);
        assert(commit_at(before, j).commit_id != commit_at(commits, n - 1).commit_id);
    }
}

/// Nothing is shown exactly where no commit has an open pull request.
pub proof fn law_nothing_open_nothing_shown(lines: Seq<LogLineView>)
    ensures
        focused(lines).len() == 0 <==> forall|i: int|
            0 <= i < lines.len() ==> !((#[trigger] lines[i]).commit is Some && open_pr(
                commit_at(lines, i),
            )),
{
    let commits = commit_lines(lines);
    if focused(lines).len() == 0 {
        assert forall|i: int| 0 <= i < lines.len() implies !((#[trigger] lines[i]).commit is Some
            && open_pr(commit_at(lines, i))) by {
            if lines[i].commit is Some && open_pr(commit_at(lines, i)) {
                law_open_is_shown(lines, i);
            }
        }
    } else {
        let p = law_shown_in_order(lines);
        assert(shown(commits, p[0]));
        let a = choose|a: int| a <= p[0] && #[trigger] open_at(commits, a);
        let i = lemma_origin(lines, a);
        assert(lines[i] == commits[a]);
    }
}

proof fn lemma_origin(lines: Seq<LogLineView>, k: int) -> (i: int)
    requires
        0 <= k < commit_lines(lines).len(),
    ensures
        0 <= i < lines.len(),
        lines[i] == commit_lines(lines)[k],
        lines[i].commit is Some,
    decreases lines.len(),
{
    if lines.last().commit is Some && k == commit_lines(lines).len() - 1 {
        lines.len() - 1
    } else {
        lemma_origin(lines.drop_last(), k)
    }
}

/// What is shown begins with a commit that has an open pull request.
pub proof fn law_begins_open(lines: Seq<LogLineView>)
    requires
        focused(lines).len() > 0,
    ensures
        open_pr(commit_at(focused(lines), 0)),
{
    let commits = commit_lines(lines);
    let p = law_shown_in_order(lines);
    assert(shown(commits, p[0]));
    let a = choose|a: int| a <= p[0] && #[trigger] open_at(commits, a);
    let f = lemma_first_open(commits, a);
    if f != p[0] {
        assert(open_at(commits, f));
        let n = (f + 1) as nat;
        assert(shown(commits, f));
        lemma_shown_by_id(commits, n, f);
        let q = lemma_shown_places(commits, n);
        lemma_prefix(commits, n, commits.len());
        assert(q[0] <= f);
        // Nothing before the first open one is shown.
        assert(q[0] == f) by {
            let b = choose|b: int| b <= q[0] && #[trigger] open_at(commits, b);
            assert(b >= f);
        }
        assert(focused(lines)[0] == commits[f]);
    }
}

/// The first commit with an open pull request.
proof fn lemma_first_open(commits: Seq<LogLineView>, a: int) -> (f: int)
    requires
        open_at(commits, a),
    ensures
        f <= a,
        open_at(commits, f),
        forall|b: int| #[trigger] open_at(commits, b) ==> f <= b,
    decreases a,
{
    if exists|b: int| b < a && #[trigger] open_at(commits, b) {
        let b = choose|b: int| b < a && #[trigger] open_at(commits, b);
        lemma_first_open(commits, b)
    } else {
        a
    }
}

proof fn lemma_prefix(commits: Seq<LogLineView>, n: nat, m: nat)
    requires
        n <= m,
    ensures
        shown_below(commits, n).is_prefix_of(shown_below(commits, m)),
    decreases m,
{
    if n < m {
        lemma_prefix(commits, n, (m - 1) as nat);
    }
}

// ---------------------------------------------------------------------------------------------
// The graph of the commits shown

/// The IDs of the commits on `lines`.
pub open spec fn ids_on(lines: Seq<LogLineView>) -> Seq<Seq<char>>
    decreases lines.len(),
{
    if lines.len() == 0 {
        seq![]
    } else {
        let before = ids_on(lines.drop_last());
        match lines.last().commit {
            Some(c) => before.push(c.commit_id),
            None => before,
        }
    }
}

/// The IDs of the commits on `lines`, to ask jj for a graph of just these.
pub fn focus_commit_ids(lines: &Vec<LogLine>) -> (out: Vec<String>)
    ensures
        out.deep_view() == ids_on(lines.deep_view()),
{
    let ghost all = lines.deep_view();
    let mut out: Vec<String> = Vec::new();
    let mut i: usize = 0;
    while i < lines.len()
        invariant
            i <= lines.len(),
            all == lines.deep_view(),
            out.deep_view() =~= ids_on(all.take(i as int)),
        decreases lines.len() - i,
    {
        let ghost before = out.deep_view();
        proof {
            assert(all.take(i + 1).drop_last() =~= all.take(i as int));
            assert(all.take(i + 1).last() == lines@[i as int].deep_view());
        }
        if let Some(c) = &lines[i].commit {
            let id = c.commit_id.clone();
            out.push(id);
            assert(out.deep_view() =~= before.push(id@));
        }
        i += 1;
    }
    assert(all.take(i as int) =~= all);
    out
}

/// jj is asked for no commit twice.
pub proof fn law_asked_once(lines: Seq<LogLineView>)
    ensures
        ids_on(focused(lines)).no_duplicates(),
        ids_on(focused(lines)).len() == focused(lines).len(),
{
    let f = focused(lines);
    let p = law_shown_in_order(lines);
    lemma_commit_lines(lines);
    assert forall|j: int| 0 <= j < f.len() implies (#[trigger] f[j]).commit is Some by {
        assert(shown(commit_lines(lines), p[j]));
        assert(commit_lines(lines)[p[j]].commit is Some);
    }
    lemma_ids_on(f);
    assert forall|j: int, k: int| 0 <= j < k < f.len() implies ids_on(f)[j] != ids_on(f)[k] by {
        law_shown_once(lines, j, k);
        assert(ids_on(f)[j] == commit_at(f, j).commit_id);
        assert(ids_on(f)[k] == commit_at(f, k).commit_id);
    }
}

proof fn lemma_ids_on(lines: Seq<LogLineView>)
    requires
        all_commits(lines),
    ensures
        ids_on(lines).len() == lines.len(),
        forall|j: int|
            0 <= j < lines.len() ==> #[trigger] ids_on(lines)[j] == commit_at(lines, j).commit_id,
    decreases lines.len(),
{
    if lines.len() > 0 {
        assert(lines[lines.len() - 1].commit is Some);
        let t = lines.drop_last();
        assert forall|j: int| 0 <= j < t.len() implies (#[trigger] t[j]).commit is Some by {
            assert(lines[j].commit is Some);
        }
        lemma_ids_on(t);
        assert forall|j: int| 0 <= j < lines.len() implies #[trigger] ids_on(lines)[j] == commit_at(
            lines,
            j,
        ).commit_id by {
            if j < t.len() {
                assert(ids_on(lines)[j] == ids_on(t)[j]);
                assert(t[j] == lines[j]);
            }
        }
    }
}

/// What `rich` knows of the commit `id`; the last line about it counts.
pub open spec fn known(rich: Seq<LogLineView>, id: Seq<char>) -> Option<CommitView>
    decreases rich.len(),
{
    if rich.len() == 0 {
        None
    } else {
        match rich.last().commit {
            Some(c) if c.commit_id == id => Some(c),
            _ => known(rich.drop_last(), id),
        }
    }
}

/// A line of the graph with what `rich` knows of its commit.
pub open spec fn grafted_line(l: LogLineView, rich: Seq<LogLineView>) -> LogLineView {
    match l.commit {
        Some(c) => match known(rich, c.commit_id) {
            Some(r) => LogLineView { graph: l.graph, commit: Some(r) },
            None => l,
        },
        None => l,
    }
}

/// The lines of the graph with what `rich` knows of their commits.
pub open spec fn grafted(topo: Seq<LogLineView>, rich: Seq<LogLineView>) -> Seq<LogLineView> {
    Seq::new(topo.len(), |i: int| grafted_line(topo[i], rich))
}

fn find_known<'a>(rich: &'a Vec<LogLine>, id: &String) -> (out: Option<&'a Commit>)
    ensures
        match out {
            Some(c) => known(rich.deep_view(), id@) == Some(c.deep_view()),
            None => known(rich.deep_view(), id@) is None,
        },
{
    let ghost all = rich.deep_view();
    let mut k: usize = rich.len();
    assert(all.take(k as int) =~= all);
    while k > 0
        invariant
            k <= rich.len(),
            all == rich.deep_view(),
            known(all, id@) == known(all.take(k as int), id@),
        decreases k,
    {
        proof {
            assert(all.take(k as int).last() == rich@[k - 1].deep_view());
            assert(all.take(k as int).drop_last() =~= all.take(k - 1));
        }
        if let Some(c) = &rich[k - 1].commit {
            if c.commit_id == *id {
                return Some(c);
            }
        }
        k -= 1;
    }
    None
}

/// Puts what is known of the commits onto the graph that jj drew of them: the graph comes from
/// `topo`, the commits from `rich` where it has them.
pub fn graft(topo: Vec<LogLine>, rich: &Vec<LogLine>) -> (out: Vec<LogLine>)
    ensures
        out.deep_view() == grafted(topo.deep_view(), rich.deep_view()),
{
    let ghost all = topo.deep_view();
    let ghost rv = rich.deep_view();
    let mut out: Vec<LogLine> = Vec::new();
    for line in it: topo
        invariant
            it.seq() == topo@,
            all == topo.deep_view(),
            rv == rich.deep_view(),
            out.deep_view() =~= grafted(all, rv).take(it.index() as int),
    {
        let ghost n = it.index() as int;
        let ghost before = out.deep_view();
        assert(all[n] == line.deep_view());
        let found: Option<&Commit> = match &line.commit {
            Some(c) => find_known(rich, &c.commit_id),
            None => None,
        };
        let line = match found {
            Some(c) => LogLine { graph: line.graph, commit: Some(c.clone()) },
            None => line,
        };
        assert(line.deep_view() == grafted_line(all[n], rv));
        out.push(line);
        assert(out.deep_view() =~= before.push(grafted_line(all[n], rv)));
    }
    assert(grafted(all, rv).take(all.len() as int) =~= grafted(all, rv));
    out
}

/// Grafting leaves the graph alone, line by line, and which commit stands where.
pub proof fn law_graft_keeps_the_graph(topo: Seq<LogLineView>, rich: Seq<LogLineView>, i: int)
    requires
        0 <= i < topo.len(),
    ensures
        grafted(topo, rich).len() == topo.len(),
        grafted(topo, rich)[i].graph == topo[i].graph,
        grafted(topo, rich)[i].commit is Some <==> topo[i].commit is Some,
        topo[i].commit is Some ==> commit_at(grafted(topo, rich), i).commit_id == commit_at(
            topo,
            i,
        ).commit_id,
{
    if topo[i].commit is Some {
        lemma_known(rich, commit_at(topo, i).commit_id);
    }
}

proof fn lemma_known(rich: Seq<LogLineView>, id: Seq<char>)
    ensures
        known(rich, id) matches Some(c) ==> c.commit_id == id,
    decreases rich.len(),
{
    if rich.len() > 0 {
        lemma_known(rich.drop_last(), id);
    }
}

// ---------------------------------------------------------------------------------------------
// The choice, in terms of what stands in the log

/// From which lines the lines with commits come.
proof fn lemma_commit_places(lines: Seq<LogLineView>) -> (q: Seq<int>)
    ensures
        q.len() == commit_lines(lines).len(),
        forall|k: int|
            0 <= k < q.len() ==> 0 <= #[trigger] q[k] < lines.len() && commit_lines(lines)[k]
                == lines[q[k]] && lines[q[k]].commit is Some,
        forall|j: int, k: int| 0 <= j < k < q.len() ==> #[trigger] q[j] < #[trigger] q[k],
        forall|i: int| 0 <= i < lines.len() && (#[trigger] lines[i]).commit is Some ==> q.contains(i),
    decreases lines.len(),
{
    if lines.len() == 0 {
        seq![]
    } else {
        let t = lines.drop_last();
        let p = lemma_commit_places(t);
        let n = lines.len() - 1;
        let q = if lines.last().commit is Some {
            p.push(n)
        } else {
            p
        };
        assert forall|i: int| 0 <= i < lines.len() && (#[trigger] lines[i]).commit is Some implies
            q.contains(i) by {
            if i < n {
                assert(t[i] == lines[i]);
                assert(p.contains(i));
                let k = choose|k: int| 0 <= k < p.len() && p[k] == i;
                assert(q[k] == i);
            } else {
                assert(q[p.len() as int] == i);
            }
        }
        assert forall|k: int| 0 <= k < q.len() implies 0 <= #[trigger] q[k] < lines.len()
            && commit_lines(lines)[k] == lines[q[k]] && lines[q[k]].commit is Some by {
            if k < p.len() {
                assert(q[k] == p[k]);
                assert(t[p[k]] == lines[p[k]]);
            }
        }
        q
    }
}

/// Lines without a commit have no say in the choice.
pub proof fn law_connectors_have_no_say(lines: Seq<LogLineView>)
    ensures
        focused(lines) == focused(lines.filter(|l: LogLineView| l.commit is Some)),
{
    let f = |l: LogLineView| l.commit is Some;
    lemma_filtered(lines, f);
    let only = lines.filter(f);
    lemma_commit_lines(lines);
    lemma_all_commits_stay(only);
}

proof fn lemma_filtered(lines: Seq<LogLineView>, f: spec_fn(LogLineView) -> bool)
    requires
        forall|l: LogLineView| #[trigger] f(l) <==> l.commit is Some,
    ensures
        lines.filter(f) == commit_lines(lines),
    decreases lines.len(),
{
    reveal(Seq::filter);
    if lines.len() > 0 {
        lemma_filtered(lines.drop_last(), f);
        assert(f(lines.last()) <==> lines.last().commit is Some);
    } else {
        assert(lines.filter(f) =~= commit_lines(lines));
    }
}

proof fn lemma_all_commits_stay(lines: Seq<LogLineView>)
    requires
        all_commits(lines),
    ensures
        commit_lines(lines) == lines,
    decreases lines.len(),
{
    if lines.len() == 0 {
        assert(commit_lines(lines) =~= lines);
    } else {
        let t = lines.drop_last();
        assert(lines[lines.len() - 1].commit is Some);
        assert forall|i: int| 0 <= i < t.len() implies (#[trigger] t[i]).commit is Some by {
            assert(lines[i].commit is Some);
        }
        lemma_all_commits_stay(t);
        assert(t.push(lines.last()) =~= lines);
    }
}

/// A commit whose pull request is open (it has a URL, and its state is `Open`) is shown.
pub proof fn law_open_state_is_shown(lines: Seq<LogLineView>, i: int)
    requires
        0 <= i < lines.len(),
        lines[i].commit is Some,
        lines[i].commit->0.pr_url is Some,
        lines[i].commit->0.pr_state == Some(PrState::Open),
    ensures
        exists|j: int|
            0 <= j < focused(lines).len() && (#[trigger] focused(lines)[j]).commit is Some
                && focused(lines)[j].commit->0.commit_id == lines[i].commit->0.commit_id,
{
    law_open_is_shown(lines, i);
    let f = focused(lines);
    let id = lines[i].commit->0.commit_id;
    let j = choose|j: int| 0 <= j < f.len() && #[trigger] commit_at(f, j).commit_id == id;
    let p = law_shown_in_order(lines);
    lemma_commit_lines(lines);
    assert(shown(commit_lines(lines), p[j]));
    assert(commit_lines(lines)[p[j]].commit is Some);
    assert(f[j].commit is Some);
}

/// Where no commit has both a URL and the state `Open`, nothing is shown: neither closed nor merged
/// pull requests count, nor those of which nothing is known.
pub proof fn law_no_open_state_shows_nothing(lines: Seq<LogLineView>)
    requires
        forall|i: int|
            0 <= i < lines.len() && (#[trigger] lines[i]).commit is Some ==> !(
            lines[i].commit->0.pr_url is Some && lines[i].commit->0.pr_state == Some(PrState::Open)),
    ensures
        focused(lines).len() == 0,
{
    law_nothing_open_nothing_shown(lines);
    assert forall|i: int| 0 <= i < lines.len() implies !((#[trigger] lines[i]).commit is Some
        && open_pr(commit_at(lines, i))) by {
        if lines[i].commit is Some {
            assert(!(lines[i].commit->0.pr_url is Some && lines[i].commit->0.pr_state == Some(
                PrState::Open,
            )));
        }
    }
}

/// Where the lines shown stand in the log: in its order, each with a commit, and each between two
/// lines (or at one) whose pull requests are open.
pub proof fn law_window(lines: Seq<LogLineView>) -> (p: Seq<int>)
    ensures
        p.len() == focused(lines).len(),
        forall|j: int|
            0 <= j < p.len() ==> 0 <= #[trigger] p[j] < lines.len() && focused(lines)[j]
                == lines[p[j]] && lines[p[j]].commit is Some,
        forall|j: int, k: int| 0 <= j < k < p.len() ==> #[trigger] p[j] < #[trigger] p[k],
        forall|j: int|
            0 <= j < p.len() ==> 0 <= #[trigger] p[j] && exists|a: int, b: int|
                0 <= a <= p[j] && p[j] <= b < lines.len() && (#[trigger] lines[a]).commit is Some
                    && lines[a].commit->0.pr_url is Some && lines[a].commit->0.pr_state == Some(
                    PrState::Open,
                ) && (#[trigger] lines[b]).commit is Some && lines[b].commit->0.pr_url is Some
                    && lines[b].commit->0.pr_state == Some(PrState::Open),
{
    let commits = commit_lines(lines);
    let q = lemma_commit_places(lines);
    let r = law_shown_in_order(lines);
    let p = Seq::new(r.len(), |j: int| q[r[j]]);
    assert forall|j: int| 0 <= j < p.len() implies 0 <= #[trigger] p[j] < lines.len() && focused(
        lines,
    )[j] == lines[p[j]] && lines[p[j]].commit is Some by {
        assert(shown(commits, r[j]));
        assert(0 <= q[r[j]] < lines.len());
    }
    assert forall|j: int, k: int| 0 <= j < k < p.len() implies #[trigger] p[j] < #[trigger] p[k] by {
        assert(shown(commits, r[j]) && shown(commits, r[k]));
        assert(q[r[j]] < q[r[k]]);
    }
    assert forall|j: int| 0 <= j < p.len() implies 0 <= #[trigger] p[j] && exists|a: int, b: int|
        0 <= a <= p[j] && p[j] <= b < lines.len() && (#[trigger] lines[a]).commit is Some
            && lines[a].commit->0.pr_url is Some && lines[a].commit->0.pr_state == Some(
            PrState::Open,
        ) && (#[trigger] lines[b]).commit is Some && lines[b].commit->0.pr_url is Some
            && lines[b].commit->0.pr_state == Some(PrState::Open) by {
        assert(shown(commits, r[j]));
        let a = choose|a: int| a <= r[j] && #[trigger] open_at(commits, a);
        let b = choose|b: int| r[j] <= b && #[trigger] open_at(commits, b);
        assert(lines[q[a]] == commits[a] && lines[q[b]] == commits[b]);
        if a < r[j] {
            assert(q[a] < q[r[j]]);
        }
        if r[j] < b {
            assert(q[r[j]] < q[b]);
        }
        assert(0 <= q[a] <= p[j] && p[j] <= q[b] < lines.len());
    }
    p
}

/// The first commit shown has a URL and the state `Open`.
pub proof fn law_first_shown_is_open(lines: Seq<LogLineView>)
    requires
        focused(lines).len() > 0,
    ensures
        focused(lines)[0].commit is Some,
        focused(lines)[0].commit->0.pr_url is Some,
        focused(lines)[0].commit->0.pr_state == Some(PrState::Open),
{
    law_begins_open(lines);
    let p = law_window(lines);
    assert(lines[p[0]].commit is Some);
}

/// The last commit shown is the last with a URL and the state `Open`, unless the same commit stands
/// further up as well.
pub proof fn law_last_shown_is_open(lines: Seq<LogLineView>, i: int)
    requires
        0 <= i < lines.len(),
        lines[i].commit is Some,
        lines[i].commit->0.pr_url is Some,
        lines[i].commit->0.pr_state == Some(PrState::Open),
        forall|j: int|
            i < j < lines.len() && (#[trigger] lines[j]).commit is Some ==> !(
            lines[j].commit->0.pr_url is Some && lines[j].commit->0.pr_state == Some(PrState::Open)),
        forall|j: int|
            0 <= j < i && (#[trigger] lines[j]).commit is Some ==> lines[j].commit->0.commit_id
                != lines[i].commit->0.commit_id,
    ensures
        focused(lines).len() > 0,
        focused(lines).last() == lines[i],
{
    let f = focused(lines);
    law_open_state_is_shown(lines, i);
    let p = law_window(lines);
    let j = choose|j: int|
        0 <= j < f.len() && (#[trigger] f[j]).commit is Some && f[j].commit->0.commit_id
            == lines[i].commit->0.commit_id;
    assert(lines[p[j]] == f[j]);
    assert(p[j] >= i);
    let n = f.len() - 1;
    assert(p[n] >= p[j]) by {
        if j < n {
            assert(p[j] < p[n]);
        }
    }
    let (a, b) = choose|a: int, b: int|
        0 <= a <= p[n] && p[n] <= b < lines.len() && (#[trigger] lines[a]).commit is Some
            && lines[a].commit->0.pr_url is Some && lines[a].commit->0.pr_state == Some(
            PrState::Open,
        ) && (#[trigger] lines[b]).commit is Some && lines[b].commit->0.pr_url is Some
            && lines[b].commit->0.pr_state == Some(PrState::Open);
    assert(b <= i);
    assert(p[n] == i);
}

proof fn lemma_mention(commits: Seq<LogLineView>, id: Seq<char>) -> (out: (int, int))
    requires
        children(commits, id) >= 1,
    ensures
        0 <= out.0 < commits.len(),
        0 <= out.1 < commits[out.0].commit->0.parents.len(),
        commits[out.0].commit->0.parents[out.1] == id,
    decreases commits.len(),
{
    let ps = commits.last().commit->0.parents;
    if listed(ps, id) >= 1 {
        (commits.len() - 1, lemma_listed_at(ps, id))
    } else {
        lemma_mention(commits.drop_last(), id)
    }
}

proof fn lemma_listed_at(ps: Seq<Seq<char>>, id: Seq<char>) -> (k: int)
    requires
        listed(ps, id) >= 1,
    ensures
        0 <= k < ps.len(),
        ps[k] == id,
    decreases ps.len(),
{
    if ps.last() == id {
        ps.len() - 1
    } else {
        lemma_listed_at(ps.drop_last(), id)
    }
}

proof fn lemma_two_mentions(commits: Seq<LogLineView>, id: Seq<char>) -> (out: (int, int, int, int))
    requires
        children(commits, id) >= 2,
    ensures
        0 <= out.0 < commits.len(),
        0 <= out.1 < commits[out.0].commit->0.parents.len(),
        commits[out.0].commit->0.parents[out.1] == id,
        0 <= out.2 < commits.len(),
        0 <= out.3 < commits[out.2].commit->0.parents.len(),
        commits[out.2].commit->0.parents[out.3] == id,
        out.0 != out.2 || out.1 != out.3,
    decreases commits.len(),
{
    let t = commits.drop_last();
    let n = commits.len() - 1;
    let ps = commits.last().commit->0.parents;
    if listed(ps, id) >= 2 {
        let (k, l) = lemma_listed_at_two(ps, id);
        (n, k, n, l)
    } else if listed(ps, id) == 1 {
        let k = lemma_listed_at(ps, id);
        let (m, l) = lemma_mention(t, id);
        (n, k, m, l)
    } else {
        lemma_two_mentions(t, id)
    }
}

proof fn lemma_listed_at_two(ps: Seq<Seq<char>>, id: Seq<char>) -> (out: (int, int))
    requires
        listed(ps, id) >= 2,
    ensures
        0 <= out.0 < out.1 < ps.len(),
        ps[out.0] == id,
        ps[out.1] == id,
    decreases ps.len(),
{
    if ps.last() == id {
        (lemma_listed_at(ps.drop_last(), id), ps.len() - 1)
    } else {
        lemma_listed_at_two(ps.drop_last(), id)
    }
}

proof fn lemma_listed_once(ps: Seq<Seq<char>>, id: Seq<char>, k: int)
    requires
        0 <= k < ps.len(),
        ps[k] == id,
    ensures
        listed(ps, id) >= 1,
    decreases ps.len(),
{
    if k < ps.len() - 1 {
        lemma_listed_once(ps.drop_last(), id, k);
    }
}

proof fn lemma_children_of_line(commits: Seq<LogLineView>, id: Seq<char>, m: int)
    requires
        0 <= m < commits.len(),
    ensures
        children(commits, id) >= listed(commits[m].commit->0.parents, id),
    decreases commits.len(),
{
    if m < commits.len() - 1 {
        lemma_children_of_line(commits.drop_last(), id, m);
    }
}

proof fn lemma_children_of_two(commits: Seq<LogLineView>, id: Seq<char>, m: int, n: int)
    requires
        0 <= m < n < commits.len(),
    ensures
        children(commits, id) >= listed(commits[m].commit->0.parents, id) + listed(
            commits[n].commit->0.parents,
            id,
        ),
    decreases commits.len(),
{
    if n < commits.len() - 1 {
        lemma_children_of_two(commits.drop_last(), id, m, n);
    } else {
        lemma_children_of_line(commits.drop_last(), id, m);
    }
}

proof fn lemma_shown_line(lines: Seq<LogLineView>, i: int)
    requires
        all_commits(lines),
        shown(lines, i),
    ensures
        exists|j: int|
            0 <= j < focused(lines).len() && (#[trigger] focused(lines)[j]).commit is Some
                && focused(lines)[j].commit->0.commit_id == lines[i].commit->0.commit_id,
{
    lemma_all_commits_stay(lines);
    lemma_shown_by_id(lines, lines.len(), i);
    let f = focused(lines);
    let id = lines[i].commit->0.commit_id;
    let j = choose|j: int| 0 <= j < f.len() && #[trigger] commit_at(f, j).commit_id == id;
    let p = law_window(lines);
    assert(lines[p[j]].commit is Some);
    assert(f[j].commit is Some);
}

/// Between two open pull requests (at `a` and `b`) a merge is shown, that is a commit with two or
/// more parents, and so are its two neighbours in the log. (Lines without a commit have no say, see
/// `law_connectors_have_no_say`; here there are none.)
pub proof fn law_merge_and_neighbours_are_shown(
    lines: Seq<LogLineView>,
    a: int,
    b: int,
    i: int,
    m: int,
)
    requires
        forall|k: int| 0 <= k < lines.len() ==> (#[trigger] lines[k]).commit is Some,
        0 <= a <= i <= b < lines.len(),
        lines[a].commit->0.pr_url is Some,
        lines[a].commit->0.pr_state == Some(PrState::Open),
        lines[b].commit->0.pr_url is Some,
        lines[b].commit->0.pr_state == Some(PrState::Open),
        0 <= m < lines.len(),
        i == m || i == m + 1 || i == m - 1,
        lines[m].commit->0.parents.len() >= 2,
    ensures
        exists|j: int|
            0 <= j < focused(lines).len() && (#[trigger] focused(lines)[j]).commit is Some
                && focused(lines)[j].commit->0.commit_id == lines[i].commit->0.commit_id,
{
    assert(open_at(lines, a) && open_at(lines, b));
    assert(kept(lines, m));
    lemma_shown_line(lines, i);
}

proof fn lemma_listed_twice(ps: Seq<Seq<char>>, id: Seq<char>, k: int, l: int)
    requires
        0 <= k < l < ps.len(),
        ps[k] == id,
        ps[l] == id,
    ensures
        listed(ps, id) >= 2,
    decreases ps.len(),
{
    if l < ps.len() - 1 {
        lemma_listed_twice(ps.drop_last(), id, k, l);
    } else {
        lemma_listed_once(ps.drop_last(), id, k);
    }
}

/// Between two open pull requests a split is shown, that is a commit that stands at two places of
/// the log as a parent (as the `k`th of line `x`, and as the `l`th of line `y`), and so are its two
/// neighbours.
pub proof fn law_split_and_neighbours_are_shown(
    lines: Seq<LogLineView>,
    a: int,
    b: int,
    i: int,
    m: int,
    x: int,
    k: int,
    y: int,
    l: int,
)
    requires
        forall|n: int| 0 <= n < lines.len() ==> (#[trigger] lines[n]).commit is Some,
        0 <= a <= i <= b < lines.len(),
        lines[a].commit->0.pr_url is Some,
        lines[a].commit->0.pr_state == Some(PrState::Open),
        lines[b].commit->0.pr_url is Some,
        lines[b].commit->0.pr_state == Some(PrState::Open),
        0 <= m < lines.len(),
        i == m || i == m + 1 || i == m - 1,
        0 <= x <= y < lines.len(),
        0 <= k < lines[x].commit->0.parents.len(),
        0 <= l < lines[y].commit->0.parents.len(),
        x == y ==> k < l,
        lines[x].commit->0.parents[k] == lines[m].commit->0.commit_id,
        lines[y].commit->0.parents[l] == lines[m].commit->0.commit_id,
    ensures
        exists|j: int|
            0 <= j < focused(lines).len() && (#[trigger] focused(lines)[j]).commit is Some
                && focused(lines)[j].commit->0.commit_id == lines[i].commit->0.commit_id,
{
    let id = lines[m].commit->0.commit_id;
    if x == y {
        lemma_listed_twice(lines[x].commit->0.parents, id, k, l);
        lemma_children_of_line(lines, id, x);
    } else {
        lemma_listed_once(lines[x].commit->0.parents, id, k);
        lemma_listed_once(lines[y].commit->0.parents, id, l);
        lemma_children_of_two(lines, id, x, y);
    }
    assert(open_at(lines, a) && open_at(lines, b));
    assert(kept(lines, m));
    lemma_shown_line(lines, i);
}

/// Between two open pull requests the neighbours of a third one are shown.
pub proof fn law_neighbours_of_open_are_shown(
    lines: Seq<LogLineView>,
    a: int,
    b: int,
    i: int,
    m: int,
)
    requires
        forall|k: int| 0 <= k < lines.len() ==> (#[trigger] lines[k]).commit is Some,
        0 <= a <= i <= b < lines.len(),
        lines[a].commit->0.pr_url is Some,
        lines[a].commit->0.pr_state == Some(PrState::Open),
        lines[b].commit->0.pr_url is Some,
        lines[b].commit->0.pr_state == Some(PrState::Open),
        0 <= m < lines.len(),
        i == m + 1 || i == m - 1,
        lines[m].commit->0.pr_url is Some,
        lines[m].commit->0.pr_state == Some(PrState::Open),
    ensures
        exists|j: int|
            0 <= j < focused(lines).len() && (#[trigger] focused(lines)[j]).commit is Some
                && focused(lines)[j].commit->0.commit_id == lines[i].commit->0.commit_id,
{
    assert(open_at(lines, a) && open_at(lines, b));
    assert(kept(lines, m));
    lemma_shown_line(lines, i);
}

/// Nothing else is shown: of a line that is shown, the line itself or one of its two neighbours has
/// an open pull request, or two or more parents, or a commit that is listed as a parent at two
/// places of the log.
pub proof fn law_nothing_else_is_shown(lines: Seq<LogLineView>, j: int) -> (out: (int, int))
    requires
        forall|k: int| 0 <= k < lines.len() ==> (#[trigger] lines[k]).commit is Some,
        0 <= j < focused(lines).len(),
    ensures
        0 <= out.0 < lines.len(),
        focused(lines)[j] == lines[out.0],
        0 <= out.1 < lines.len(),
        out.1 == out.0 || out.1 == out.0 + 1 || out.1 == out.0 - 1,
        ({
            let c = lines[out.1].commit->0;
            ||| c.pr_url is Some && c.pr_state == Some(PrState::Open)
            ||| c.parents.len() >= 2
            ||| exists|x: int, k: int, y: int, l: int|
                0 <= x < lines.len() && 0 <= y < lines.len() && (x != y || k != l) && 0 <= k
                    < lines[x].commit->0.parents.len() && 0 <= l < lines[y].commit->0.parents.len()
                    && #[trigger] lines[x].commit->0.parents[k] == c.commit_id
                    && #[trigger] lines[y].commit->0.parents[l] == c.commit_id
        }),
{
    lemma_all_commits_stay(lines);
    let p = law_shown_in_order(lines);
    let i = p[j];
    assert(shown(lines, i));
    let m = if kept(lines, i) {
        i
    } else if i > 0 && kept(lines, i - 1) {
        i - 1
    } else {
        i + 1
    };
    assert(kept(lines, m));
    let c = lines[m].commit->0;
    if !(c.pr_url is Some && c.pr_state == Some(PrState::Open)) && c.parents.len() < 2 {
        let (x, k, y, l) = lemma_two_mentions(lines, c.commit_id);
        assert(lines[x].commit->0.parents[k] == c.commit_id);
        assert(lines[y].commit->0.parents[l] == c.commit_id);
    }
    (i, m)
}

proof fn lemma_first_place_is_shown(commits: Seq<LogLineView>, n: nat, i: int)
    requires
        0 <= i < n <= commits.len(),
        shown(commits, i),
        forall|j: int|
            0 <= j < i ==> (#[trigger] commits[j]).commit->0.commit_id
                != commits[i].commit->0.commit_id,
    ensures
        shown_below(commits, n).contains(commits[i]),
    decreases n,
{
    let before = shown_below(commits, (n - 1) as nat);
    let now = shown_below(commits, n);
    if i < n - 1 {
        lemma_first_place_is_shown(commits, (n - 1) as nat, i);
        let k = choose|k: int| 0 <= k < before.len() && before[k] == commits[i];
        assert(now[k] == commits[i]);
    } else {
        let p = lemma_shown_places(commits, (n - 1) as nat);
        let id = commit_at(commits, i).commit_id;
        if has_id(before, id) {
            let k = choose|k: int| 0 <= k < before.len() && #[trigger] commit_at(before, k).commit_id
                == id;
            assert(before[k] == commits[p[k]]);
            assert(shown(commits, p[k]));
        }
        assert(now[before.len() as int] == commits[i]);
    }
}

/// Where a commit stands in the log more than once, it is its first line that is shown: an open pull
/// request's line is shown as it stands unless a line above it carries the same commit.
pub proof fn law_first_open_line_is_shown(lines: Seq<LogLineView>, i: int)
    requires
        0 <= i < lines.len(),
        lines[i].commit is Some,
        lines[i].commit->0.pr_url is Some,
        lines[i].commit->0.pr_state == Some(PrState::Open),
        forall|j: int|
            0 <= j < i && (#[trigger] lines[j]).commit is Some ==> lines[j].commit->0.commit_id
                != lines[i].commit->0.commit_id,
    ensures
        focused(lines).contains(lines[i]),
{
    let commits = commit_lines(lines);
    let q = lemma_commit_places(lines);
    assert(q.contains(i));
    let k = choose|k: int| 0 <= k < q.len() && q[k] == i;
    assert(commits[k] == lines[q[k]]);
    assert(open_at(commits, k));
    assert(shown(commits, k));
    assert forall|j: int| 0 <= j < k implies (#[trigger] commits[j]).commit->0.commit_id
        != commits[k].commit->0.commit_id by {
        assert(q[j] < q[k]);
        assert(commits[j] == lines[q[j]]);
    }
    lemma_first_place_is_shown(commits, commits.len(), k);
}

/// Of the lines shown no two carry the same commit.
pub proof fn law_shown_ids_differ(lines: Seq<LogLineView>, j: int, k: int)
    requires
        0 <= j < k < focused(lines).len(),
    ensures
        focused(lines)[j].commit->0.commit_id != focused(lines)[k].commit->0.commit_id,
{
    law_shown_once(lines, j, k);
}

/// jj is asked for the commits on the lines, in their order.
pub proof fn law_ids_of_lines(lines: Seq<LogLineView>)
    requires
        forall|k: int| 0 <= k < lines.len() ==> (#[trigger] lines[k]).commit is Some,
    ensures
        ids_on(lines).len() == lines.len(),
        forall|j: int|
            0 <= j < lines.len() ==> #[trigger] ids_on(lines)[j] == lines[j].commit->0.commit_id,
{
    lemma_ids_on(lines);
    assert forall|j: int| 0 <= j < lines.len() implies #[trigger] ids_on(lines)[j]
        == lines[j].commit->0.commit_id by {
        assert(ids_on(lines)[j] == commit_at(lines, j).commit_id);
    }
}

/// A line of the graph gets its commit from the last line that carries the same one, with all that
/// is known of it there.
pub proof fn law_graft_brings_what_is_known(
    topo: Seq<LogLineView>,
    rich: Seq<LogLineView>,
    i: int,
    j: int,
)
    requires
        0 <= i < topo.len(),
        0 <= j < rich.len(),
        topo[i].commit is Some,
        rich[j].commit is Some,
        rich[j].commit->0.commit_id == topo[i].commit->0.commit_id,
        forall|k: int|
            j < k < rich.len() && (#[trigger] rich[k]).commit is Some ==> rich[k].commit->0.commit_id
                != topo[i].commit->0.commit_id,
    ensures
        grafted(topo, rich)[i].graph == topo[i].graph,
        grafted(topo, rich)[i].commit == rich[j].commit,
{
    lemma_known_at(rich, topo[i].commit->0.commit_id, j);
}

proof fn lemma_known_at(rich: Seq<LogLineView>, id: Seq<char>, j: int)
    requires
        0 <= j < rich.len(),
        rich[j].commit is Some,
        rich[j].commit->0.commit_id == id,
        forall|k: int|
            j < k < rich.len() && (#[trigger] rich[k]).commit is Some ==> rich[k].commit->0.commit_id
                != id,
    ensures
        known(rich, id) == rich[j].commit,
    decreases rich.len(),
{
    if j < rich.len() - 1 {
        let t = rich.drop_last();
        assert(rich[rich.len() - 1] == rich.last());
        assert forall|k: int| j < k < t.len() && (#[trigger] t[k]).commit is Some implies
            t[k].commit->0.commit_id != id by {
            assert(t[k] == rich[k]);
        }
        lemma_known_at(t, id, j);
    }
}

/// A line of the graph that carries no commit, or one of which nothing is known, stays as it is.
pub proof fn law_graft_leaves_the_unknown(topo: Seq<LogLineView>, rich: Seq<LogLineView>, i: int)
    requires
        0 <= i < topo.len(),
        topo[i].commit is Some ==> forall|k: int|
            0 <= k < rich.len() && (#[trigger] rich[k]).commit is Some ==> rich[k].commit->0.commit_id
                != topo[i].commit->0.commit_id,
    ensures
        grafted(topo, rich).len() == topo.len(),
        grafted(topo, rich)[i] == topo[i],
{
    if topo[i].commit is Some {
        lemma_unknown(rich, topo[i].commit->0.commit_id);
    }
}

proof fn lemma_unknown(rich: Seq<LogLineView>, id: Seq<char>)
    requires
        forall|k: int|
            0 <= k < rich.len() && (#[trigger] rich[k]).commit is Some ==> rich[k].commit->0.commit_id
                != id,
    ensures
        known(rich, id) is None,
    decreases rich.len(),
{
    if rich.len() > 0 {
        let t = rich.drop_last();
        assert(rich[rich.len() - 1] == rich.last());
        assert forall|k: int| 0 <= k < t.len() && (#[trigger] t[k]).commit is Some implies
            t[k].commit->0.commit_id != id by {
            assert(t[k] == rich[k]);
        }
        lemma_unknown(t, id);
    }
}

} // verus!
