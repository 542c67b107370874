use branch::discovery::{RepoDir, RepoKind, Workspace};
use branch::focus::{focus_commit_ids, focus_on_open, graft};
use branch::gh::{PrInfo, PrMap, PrState, ReviewDecision};
use branch::jj::{Commit, LogLine};
use branch::log_view::{
    annotate_drafts, branches_with, build_commit_tags, collect_pr_repos, fetch_ws_lines,
    trim_top_empty, PrCacheInner, WorkspaceLogs,
};

fn commit(id: &str) -> Commit {
    Commit {
        change_id: format!("ch-{id}"),
        commit_id: id.to_string(),
        empty: false,
        title: format!("title of {id}"),
        parents: vec![],
        pr_url: None,
        pr_number: None,
        is_draft: None,
        pr_title: None,
        pr_state: None,
        review_decision: None,
    }
}

fn line(c: Commit) -> LogLine {
    LogLine {
        graph: "o  ".to_string(),
        commit: Some(c),
    }
}

fn connector(graph: &str) -> LogLine {
    LogLine {
        graph: graph.to_string(),
        commit: None,
    }
}

fn plain(id: &str) -> LogLine {
    line(commit(id))
}

fn open(id: &str) -> LogLine {
    let mut c = commit(id);
    c.pr_url = Some("https://github.com/o/r/pull/1".to_string());
    c.pr_state = Some(PrState::Open);
    line(c)
}

fn child_of(id: &str, parents: &[&str]) -> LogLine {
    let mut c = commit(id);
    c.parents = parents.iter().map(|p| p.to_string()).collect();
    line(c)
}

fn blank(id: &str) -> LogLine {
    let mut c = commit(id);
    c.empty = true;
    c.title = String::new();
    line(c)
}

fn ids(lines: &[LogLine]) -> Vec<&str> {
    lines
        .iter()
        .map(|l| match &l.commit {
            Some(c) => c.commit_id.as_str(),
            None => l.graph.as_str(),
        })
        .collect()
}

fn with_url(id: &str, url: &str) -> LogLine {
    let mut c = commit(id);
    c.pr_url = Some(url.to_string());
    line(c)
}

fn known() -> PrMap {
    let mut map = PrMap::new();
    map.insert(
        "o".to_string(),
        "r".to_string(),
        5,
        PrInfo {
            is_draft: true,
            title: "on GitHub".to_string(),
            state: PrState::Open,
            review_decision: ReviewDecision::Approved,
        },
    );
    map
}

#[test]
fn annotates_what_is_known() {
    let lines = vec![
        with_url("a", "https://github.com/o/r/pull/5"),
        with_url("b", "https://github.com/o/r/pull/6"),
        with_url("c", "elsewhere"),
        connector("~"),
    ];
    let out = annotate_drafts(lines, &known());
    let a = out[0].commit.as_ref().unwrap();
    assert_eq!(a.is_draft, Some(true));
    assert_eq!(a.pr_title.as_deref(), Some("on GitHub"));
    assert_eq!(a.pr_state, Some(PrState::Open));
    assert_eq!(a.review_decision, Some(ReviewDecision::Approved));
    assert_eq!(a.title, "title of a");
    assert_eq!(a.pr_number, None);
    for l in &out[1..3] {
        let c = l.commit.as_ref().unwrap();
        assert!(c.is_draft.is_none() && c.pr_title.is_none() && c.pr_state.is_none());
    }
    assert!(out[3].commit.is_none());
    let untouched = annotate_drafts(vec![plain("x")], &PrMap::new());
    assert_eq!(ids(&untouched), ["x"]);
}

#[test]
fn trims_blank_commits_at_the_top() {
    let out = trim_top_empty(vec![
        connector("|"),
        blank("w"),
        connector("|"),
        blank("v"),
        connector("/"),
        plain("a"),
        blank("b"),
    ]);
    assert_eq!(ids(&out), ["/", "a", "b"]);
    assert_eq!(ids(&trim_top_empty(vec![plain("a"), blank("b")])), ["a", "b"]);
    assert!(trim_top_empty(vec![blank("a"), connector("~")]).is_empty());
    assert!(trim_top_empty(vec![connector("~")]).is_empty());
    let mut titled = commit("t");
    titled.empty = true;
    assert_eq!(ids(&trim_top_empty(vec![line(titled)])), ["t"]);
}

#[test]
fn nothing_open_nothing_shown() {
    assert!(focus_on_open(vec![]).is_empty());
    assert!(focus_on_open(vec![plain("a"), child_of("m", &["a", "b"]), connector("~")]).is_empty());
    let mut merged = commit("x");
    merged.pr_url = Some("u".to_string());
    merged.pr_state = Some(PrState::Merged);
    assert!(focus_on_open(vec![line(merged)]).is_empty());
    let mut no_url = commit("y");
    no_url.pr_state = Some(PrState::Open);
    assert!(focus_on_open(vec![line(no_url)]).is_empty());
}

#[test]
fn window_and_neighbours() {
    let out = focus_on_open(vec![
        plain("before"),
        open("p"),
        connector("|"),
        plain("n1"),
        plain("gap1"),
        plain("gap2"),
        plain("n2"),
        open("q"),
        plain("after"),
    ]);
    assert_eq!(ids(&out), ["p", "n1", "n2", "q"]);
    assert_eq!(ids(&focus_on_open(vec![plain("x"), open("p"), plain("y")])), ["p"]);
    assert_eq!(ids(&focus_on_open(vec![open("p"), plain("one"), open("q")])), ["p", "one", "q"]);
}

#[test]
fn merges_and_splits_are_kept() {
    let out = focus_on_open(vec![
        child_of("outer", &["x", "y"]),
        open("p"),
        plain("a"),
        plain("b"),
        child_of("merge", &["c", "d"]),
        plain("c"),
        plain("d"),
        plain("e"),
        open("q"),
    ]);
    assert_eq!(ids(&out), ["p", "a", "b", "merge", "c", "e", "q"]);
    let out = focus_on_open(vec![
        child_of("k1", &["fork"]),
        child_of("k2", &["fork"]),
        open("p"),
        plain("a"),
        plain("b"),
        plain("c"),
        plain("fork"),
        plain("d"),
        plain("e"),
        plain("f"),
        open("q"),
    ]);
    assert_eq!(ids(&out), ["p", "a", "c", "fork", "d", "f", "q"]);
}

#[test]
fn same_commit_is_shown_once() {
    let out = focus_on_open(vec![open("p"), open("q"), open("p"), plain("n"), open("q")]);
    assert_eq!(ids(&out), ["p", "q", "n"]);
}

#[test]
fn graft_takes_the_graph_from_one_and_the_commit_from_the_other() {
    let focused = focus_on_open(vec![open("p"), plain("n"), open("q")]);
    assert_eq!(focus_commit_ids(&focused), ["p", "n", "q"]);
    let mut bare = plain("p");
    bare.graph = "@  ".to_string();
    let out = graft(vec![bare, connector("~"), plain("other")], &focused);
    assert_eq!(out[0].graph, "@  ");
    assert!(out[0].commit.as_ref().unwrap().pr_url.is_some());
    assert_eq!(ids(&out), ["p", "~", "other"]);
    assert!(out[2].commit.as_ref().unwrap().pr_url.is_none());
    assert!(focus_commit_ids(&vec![connector("~")]).is_empty());
}

fn repo(name: &str, kind: RepoKind) -> RepoDir<u32> {
    RepoDir {
        name: name.to_string(),
        path: 0,
        kind,
    }
}

fn logs(branch: &str, repos: Vec<RepoDir<u32>>, stacks: Vec<Option<Vec<LogLine>>>) -> WorkspaceLogs<u32> {
    WorkspaceLogs {
        ws: Workspace {
            path: 0,
            branch: branch.to_string(),
            repos,
        },
        path_text: format!("/t/{branch}"),
        stacks,
    }
}

#[test]
fn workspace_lines() {
    let w = logs(
        "b",
        vec![
            repo("git", RepoKind::GitOnly),
            repo("jj", RepoKind::Jj),
            repo("failed", RepoKind::Jj),
            repo("missing", RepoKind::Jj),
        ],
        vec![
            Some(vec![plain("ignored")]),
            Some(vec![blank("@"), with_url("a", "https://github.com/o/r/pull/5")]),
            None,
        ],
    );
    let out = fetch_ws_lines(&w, &known());
    assert_eq!(out.len(), 3);
    assert_eq!(out[0].0, "jj");
    assert_eq!(ids(&out[0].1), ["a"]);
    assert_eq!(out[0].1[0].commit.as_ref().unwrap().is_draft, Some(true));
    assert_eq!((out[1].0.as_str(), out[1].1.len()), ("failed", 0));
    assert_eq!((out[2].0.as_str(), out[2].1.len()), ("missing", 0));
}

#[test]
fn tags_across_workspaces() {
    let all = vec![
        logs(
            "one",
            vec![repo("r", RepoKind::Jj), repo("s", RepoKind::Jj)],
            vec![
                Some(vec![plain("a"), connector("|"), plain("b")]),
                Some(vec![plain("a")]),
            ],
        ),
        logs("two", vec![repo("g", RepoKind::GitOnly)], vec![Some(vec![plain("a")])]),
        logs("three", vec![repo("r", RepoKind::Jj)], vec![Some(vec![plain("a")])]),
    ];
    let tags = build_commit_tags(&all);
    let tag = |id: &str, b: &str, r: &str| (id.to_string(), b.to_string(), r.to_string());
    assert_eq!(
        tags,
        [
            tag("a", "one", "r"),
            tag("b", "one", "r"),
            tag("a", "one", "s"),
            tag("a", "three", "r")
        ]
    );
    assert_eq!(branches_with(&tags, "a"), ["one", "one", "three"]);
    assert!(branches_with(&tags, "z").is_empty());
}

#[test]
fn repositories_to_ask_about() {
    let pr = |repo: &str, n: u32| with_url("x", &format!("https://github.com/o/{repo}/pull/{n}"));
    let all = vec![
        logs("b", vec![repo("r", RepoKind::Jj)], vec![Some(vec![pr("a", 1), pr("a", 2), plain("y")])]),
        logs("c", vec![repo("g", RepoKind::GitOnly)], vec![Some(vec![pr("never", 1)])]),
    ];
    let sources = vec![None, Some(vec![pr("b", 1), pr("a", 9), with_url("z", "no url")])];
    let mut out = collect_pr_repos(&all, &sources);
    out.sort();
    assert_eq!(
        out,
        [
            ("o".to_string(), "a".to_string()),
            ("o".to_string(), "b".to_string())
        ]
    );
}

#[test]
fn cache_is_replaced_as_a_whole() {
    let mut cache: PrCacheInner<u64> = PrCacheInner::new();
    assert!(cache.map.is_empty());
    assert_eq!(cache.last_sync, None);
    cache.refresh(known(), 7);
    let snap = cache.snapshot();
    assert_eq!(snap.map.len(), 1);
    assert_eq!(snap.last_sync, Some(7));
    cache.refresh(PrMap::new(), 9);
    assert!(cache.map.is_empty());
    assert_eq!(snap.map.len(), 1);
    assert_eq!(cache.last_sync, Some(9));
}
