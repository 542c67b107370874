use branch::discovery::{RepoDir, RepoKind, SourceRepo, Workspace};
use branch::escape::{html_escape, id_slug, url_path_escape};
use branch::gh::{PrInfo, PrMap, PrState, ReviewDecision};
use branch::jj::{Commit, LogLine};
use branch::log_view::WorkspaceLogs;
use branch::markdown::{
    build_repo_md, build_source_md, build_workspace_md, display_title, md_status_tag, pr_label,
};
use branch::page::{
    error_page, humanize_age, render_copy_button, render_log_line, render_log_lines, render_nav,
    render_sync_status, render_ws_chips, LastSync, Section, CONTROLS,
};
use branch::site::{
    bad_source_path, find_workspace, focus_source, no_such_source, no_such_workspace, open_source, render_index,
    render_one, render_source, render_sources_index, render_workspace, source_log_failed,
    split_source_path,
};
use branch::template::{PAGE_HEAD, PAGE_TAIL};

const SYNC: &str = "<span class=\"sync\"><span class=\"sync-time\" title=\"refreshes every 5 min\">never synced</span><button class=\"resync\" type=\"button\">Resync</button></span>";

fn commit(id: &str) -> Commit {
    Commit {
        change_id: "chch".to_string(),
        commit_id: id.to_string(),
        empty: false,
        title: "a < b".to_string(),
        parents: vec![],
        pr_url: None,
        pr_number: None,
        is_draft: None,
        pr_title: None,
        pr_state: None,
        review_decision: None,
    }
}

fn with_pr(id: &str, n: Option<u64>) -> Commit {
    let mut c = commit(id);
    c.pr_url = Some("https://github.com/o/r/pull/5?a&b".to_string());
    c.pr_number = n;
    c
}

fn line(c: Commit) -> LogLine {
    LogLine {
        graph: "@ ".to_string(),
        commit: Some(c),
    }
}

fn tags(list: &[(&str, &str)]) -> Vec<(String, String, String)> {
    list.iter()
        .map(|(id, b)| (id.to_string(), b.to_string(), "repo".to_string()))
        .collect()
}

#[test]
fn html_is_escaped() {
    assert_eq!(
        html_escape("<a href=\"x\">Tom & 'Jerry'</a>"),
        "&lt;a href=&quot;x&quot;&gt;Tom &amp; &#39;Jerry&#39;&lt;/a&gt;"
    );
    assert_eq!(html_escape("plain \u{2705}"), "plain \u{2705}");
    assert_eq!(html_escape(""), "");
}

#[test]
fn paths_are_escaped() {
    assert_eq!(url_path_escape("a/B_9-.~"), "a/B_9-.~");
    assert_eq!(url_path_escape("a b%\u{e9}\n"), "a%20b%25%C3%A9%0A");
    assert_eq!(url_path_escape("\u{1f980}?#"), "%F0%9F%A6%80%3F%23");
}

#[test]
fn slugs() {
    assert_eq!(id_slug("a/b.C_d-9 \u{e9}"), "a-b-C_d-9--");
}

#[test]
fn ages() {
    let all = [
        (0, "just now"),
        (4, "just now"),
        (5, "5s ago"),
        (59, "59s ago"),
        (60, "1m ago"),
        (3599, "59m ago"),
        (3600, "1h ago"),
        (86399, "23h ago"),
        (86400, "1d ago"),
        (u64::MAX, "213503982334601d ago"),
    ];
    for (s, text) in all {
        assert_eq!(humanize_age(s), text);
    }
    assert_eq!(render_sync_status(LastSync::Never), SYNC);
    assert!(render_sync_status(LastSync::Ago(200)).contains(">Last sync: 3m ago</span>"));
    assert!(render_sync_status(LastSync::Ahead).contains(">synced just now</span>"));
}

#[test]
fn bar_at_the_top() {
    assert_eq!(
        render_nav(Section::Workspaces, LastSync::Never),
        format!("<nav class=\"top\"><a class=\"brand\" href=\"/\">branchd</a><a class=\"navlink active\" href=\"/\">workspaces</a><a class=\"navlink\" href=\"/sources\">sources</a>{SYNC}</nav>\n")
    );
    assert_eq!(
        render_nav(Section::Sources, LastSync::Never),
        format!("<nav class=\"top\"><a class=\"brand\" href=\"/\">branchd</a><a class=\"navlink\" href=\"/\">workspaces</a><a class=\"navlink active\" href=\"/sources\">sources</a>{SYNC}</nav>\n")
    );
    assert_eq!(
        CONTROLS,
        "<div class=\"controls\"><label><input type=\"checkbox\" id=\"show-drafts\"> show drafts</label><label><input type=\"checkbox\" id=\"show-empty\"> show empty</label></div>\n"
    );
}

#[test]
fn errors_and_buttons() {
    assert_eq!(
        error_page("a<b"),
        format!("{PAGE_HEAD}<h1>branchd</h1><pre class=\"err\">a&lt;b</pre>{PAGE_TAIL}")
    );
    assert_eq!(
        render_copy_button("id", "**x**\n"),
        "<div class=\"copy-wrap\"><button class=\"copy-md\" type=\"button\" data-target=\"id\">Copy as Markdown</button><pre id=\"id\" hidden>**x**\n</pre></div>\n"
    );
    assert_eq!(render_copy_button("id", " \n\t"), "");
    assert!(PAGE_HEAD.starts_with("<!doctype html>\n") && PAGE_HEAD.ends_with("<body>\n"));
    assert!(PAGE_TAIL.starts_with("<script>\n") && PAGE_TAIL.ends_with("</body></html>\n"));
}

#[test]
fn status_tags() {
    let mut c = with_pr("x", Some(5));
    assert_eq!(md_status_tag(&c), "");
    c.is_draft = Some(true);
    assert_eq!(md_status_tag(&c), " `draft`");
    c.review_decision = Some(ReviewDecision::Approved);
    assert_eq!(md_status_tag(&c), " \u{2705} `draft`");
    c.pr_state = Some(PrState::Closed);
    assert_eq!(md_status_tag(&c), " `closed`");
    c.pr_state = Some(PrState::Merged);
    assert_eq!(md_status_tag(&c), " `merged`");
    c.pr_state = Some(PrState::Open);
    c.is_draft = Some(false);
    assert_eq!(md_status_tag(&c), " \u{2705}");
}

#[test]
fn titles_and_labels() {
    let mut c = commit("x");
    assert_eq!(display_title(&c), "a < b");
    c.pr_title = Some("".to_string());
    assert_eq!(display_title(&c), "a < b");
    c.pr_title = Some("better".to_string());
    assert_eq!(display_title(&c), "better");
    c.pr_title = None;
    c.title = String::new();
    assert_eq!(display_title(&c), "(no description)");
    assert_eq!(pr_label(&c), "PR");
    c.pr_number = Some(12);
    assert_eq!(pr_label(&c), "#12");
}

#[test]
fn lists_in_markdown() {
    let mut draft = with_pr("y", None);
    draft.is_draft = Some(true);
    let lines = vec![line(with_pr("x", Some(5))), line(commit("z")), line(draft)];
    let bullets = "- [#5](https://github.com/o/r/pull/5?a&b) a < b\n- [PR](https://github.com/o/r/pull/5?a&b) a < b `draft`\n";
    assert_eq!(build_repo_md("r", &lines, true), format!("*r*\n{bullets}\n"));
    assert_eq!(build_repo_md("r", &lines, false), format!("**r**\n{bullets}\n"));
    assert_eq!(build_repo_md("r", &vec![line(commit("z"))], true), "");
    let repos = vec![
        ("r".to_string(), lines),
        ("none".to_string(), vec![line(commit("z"))]),
    ];
    assert_eq!(build_workspace_md("b", &repos), format!("**b**\n\n*r*\n{bullets}\n"));
}

#[test]
fn sources_in_markdown() {
    let lines = vec![line(with_pr("x", Some(5))), line(commit("z")), line(with_pr("y", None))];
    let t = tags(&[("x", "two"), ("x", "one"), ("z", "three"), ("x", "two")]);
    assert_eq!(
        build_source_md("n", "r", &lines, &t),
        "**n/r**\n\n- [#5](https://github.com/o/r/pull/5?a&b) a < b \u{2014} _one, two_\n- [PR](https://github.com/o/r/pull/5?a&b) a < b\n"
    );
}

#[test]
fn chips() {
    let t = tags(&[("x", "b b"), ("y", "other"), ("x", "a&"), ("x", "b b")]);
    assert_eq!(
        render_ws_chips(&t, "x", None),
        " <a class=\"wschip\" href=\"/w/b%20b\">b b</a> <a class=\"wschip\" href=\"/w/a%26\">a&amp;</a>"
    );
    assert_eq!(
        render_ws_chips(&t, "x", Some("b b")),
        " <a class=\"wschip\" href=\"/w/a%26\">a&amp;</a>"
    );
    assert_eq!(render_ws_chips(&t, "z", None), "");
}

#[test]
fn rows() {
    let connector = LogLine {
        graph: "<~>".to_string(),
        commit: None,
    };
    assert_eq!(
        render_log_line(&connector, &vec![], None),
        "<div class=\"row connector\"><span class=\"graph\">&lt;~&gt;</span></div>\n"
    );
    let inner = "<span class=\"graph\">@ </span><code class=\"id\">chch</code> <span class=\"title\">a &lt; b</span>";
    assert_eq!(
        render_log_line(&line(commit("x")), &vec![], None),
        format!("<div class=\"row commit\" data-empty=\"false\" data-draft=\"false\">{inner}</div>\n")
    );
    let mut c = with_pr("x", Some(5));
    c.empty = true;
    c.is_draft = Some(true);
    c.review_decision = Some(ReviewDecision::Approved);
    assert_eq!(
        render_log_line(&line(c.clone()), &tags(&[("x", "w")]), None),
        format!("<div class=\"row commit\" data-empty=\"true\" data-draft=\"true\"><a class=\"linked\" href=\"https://github.com/o/r/pull/5?a&amp;b\" target=\"_blank\">{inner} <span class=\"pr draft\">#5 <span class=\"check\" title=\"approved\">&#10003;</span></span> <span class=\"empty-tag\">empty</span></a> <a class=\"wschip\" href=\"/w/w\">w</a></div>\n")
    );
    c.pr_state = Some(PrState::Merged);
    assert!(render_log_line(&line(c.clone()), &vec![], None).contains("<span class=\"pr merged\">"));
    c.pr_state = Some(PrState::Closed);
    assert!(render_log_line(&line(c.clone()), &vec![], None).contains("<span class=\"pr closed\">"));
    c.pr_state = Some(PrState::Open);
    c.is_draft = None;
    c.pr_number = None;
    c.review_decision = None;
    assert!(render_log_line(&line(c), &vec![], None).contains("<span class=\"pr\">PR</span>"));
    assert_eq!(
        render_log_lines(&vec![line(commit("x")), line(commit("x"))], &vec![], None).matches(inner).count(),
        2
    );
}

fn logs(branch: &str, kind: RepoKind, stack: Option<Vec<LogLine>>) -> WorkspaceLogs<u32> {
    WorkspaceLogs {
        ws: Workspace {
            path: 1,
            branch: branch.to_string(),
            repos: vec![RepoDir {
                name: "r<1>".to_string(),
                path: 2,
                kind,
            }],
        },
        path_text: format!("/t/{branch}"),
        stacks: vec![stack],
    }
}

#[test]
fn section_of_a_workspace() {
    let html = render_workspace(3, "a/b", "/t/a&b", &vec![], &vec![], None);
    assert_eq!(
        html,
        "<section class=\"ws\">\n<h2><a href=\"/w/a/b\">a/b</a></h2>\n<p class=\"sub\"><code>/t/a&amp;b</code></p>\n<div class=\"copy-wrap\"><button class=\"copy-md\" type=\"button\" data-target=\"md-ws-3-a-b\">Copy as Markdown</button><pre id=\"md-ws-3-a-b\" hidden>**a/b**\n\n</pre></div>\n<p class=\"empty\">no jj repos</p>\n</section>\n"
    );
    let repos = vec![
        ("r&".to_string(), vec![line(commit("x"))]),
        ("e".to_string(), vec![]),
    ];
    let html = render_workspace(0, "b", "/t/b", &repos, &vec![], None);
    let row = render_log_line(&line(commit("x")), &vec![], None);
    assert!(html.ends_with(&format!(
        "<div class=\"repo\">\n<h3>r&amp;</h3>\n<div class=\"stack\">\n{row}</div>\n</div>\n<div class=\"repo\">\n<h3>e</h3>\n<p class=\"empty\">no commits ahead of trunk</p>\n</div>\n</section>\n"
    )));
}

#[test]
fn index_of_workspaces() {
    let map = PrMap::new();
    let none: Vec<WorkspaceLogs<u32>> = vec![logs("g", RepoKind::GitOnly, None)];
    let nav = render_nav(Section::Workspaces, LastSync::Never);
    assert_eq!(
        render_index("/t&", &none, &map, LastSync::Never),
        format!("{PAGE_HEAD}{nav}{CONTROLS}<p class=\"sub\">root: <code>/t&amp;</code> &middot; 0 workspaces</p>\n<p>No jj workspaces found.</p>\n{PAGE_TAIL}")
    );
    let one = vec![
        logs("g", RepoKind::GitOnly, None),
        logs("b", RepoKind::Jj, Some(vec![line(commit("x"))])),
    ];
    let repos = vec![("r<1>".to_string(), vec![line(commit("x"))])];
    let section = render_workspace(1, "b", "/t/b", &repos, &vec![], Some("b"));
    assert_eq!(
        render_index("/t", &one, &map, LastSync::Never),
        format!("{PAGE_HEAD}{nav}{CONTROLS}<p class=\"sub\">root: <code>/t</code> &middot; 1 workspace</p>\n{section}{PAGE_TAIL}")
    );
    let section = render_workspace(0, "b", "/t/b", &repos, &vec![], Some("b"));
    assert_eq!(
        render_one("b", &one, &map, LastSync::Never).unwrap(),
        format!("{PAGE_HEAD}{nav}{CONTROLS}<p class=\"sub\"><a href=\"/\">&larr; all workspaces</a></p>\n{section}{PAGE_TAIL}")
    );
    assert_eq!(find_workspace(&one, "b"), Some(1));
    assert_eq!(find_workspace(&one, "g"), None);
    assert_eq!(
        render_one("g\n\"", &one, &map, LastSync::Never).unwrap_err(),
        "no jj workspace with branch \"g\\n\\\"\""
    );
    assert_eq!(no_such_workspace("\"x\""), "no jj workspace with branch \"x\"");
}

#[test]
fn hidden_lists_have_ids_of_their_own() {
    let all = vec![
        logs("a/b", RepoKind::Jj, None),
        logs("a-b", RepoKind::Jj, None),
        logs("a-b", RepoKind::Jj, None),
    ];
    let html = render_index("/t", &all, &PrMap::new(), LastSync::Never);
    for id in ["md-ws-0-a-b", "md-ws-1-a-b", "md-ws-2-a-b"] {
        assert_eq!(html.matches(&format!("<pre id=\"{id}\" hidden>")).count(), 1);
        assert_eq!(html.matches(&format!("data-target=\"{id}\"")).count(), 1);
    }
}

fn source(namespace: &str, name: &str) -> SourceRepo<u32> {
    SourceRepo {
        namespace: namespace.to_string(),
        name: name.to_string(),
        path: 0,
    }
}

#[test]
fn index_of_sources() {
    let nav = render_nav(Section::Sources, LastSync::Never);
    let none: Vec<SourceRepo<u32>> = vec![];
    assert_eq!(
        render_sources_index("/s", Ok(none), LastSync::Never),
        format!("{PAGE_HEAD}{nav}<p class=\"sub\">root: <code>/s</code> &middot; 0 sources</p>\n<p>No jj source repos found.</p>\n{PAGE_TAIL}")
    );
    let repos = vec![source("a", "x y"), source("a", "z"), source("b&", "q")];
    assert_eq!(
        render_sources_index("/s", Ok(repos), LastSync::Never),
        format!("{PAGE_HEAD}{nav}<p class=\"sub\">root: <code>/s</code> &middot; 3 sources</p>\n<h2>a</h2>\n<ul class=\"source-list\">\n<li><a href=\"/s/a/x%20y\">x y</a></li>\n<li><a href=\"/s/a/z\">z</a></li>\n</ul>\n<h2>b&amp;</h2>\n<ul class=\"source-list\">\n<li><a href=\"/s/b%26/q\">q</a></li>\n</ul>\n{PAGE_TAIL}")
    );
    assert!(render_sources_index("/s", Ok(vec![source("a", "x")]), LastSync::Never).contains("1 source</p>"));
    let failed: Result<Vec<SourceRepo<u32>>, String> = Err("gone & <lost>".to_string());
    assert_eq!(
        render_sources_index("/s", failed, LastSync::Never),
        error_page("scan_sources failed: gone & <lost>")
    );
}

#[test]
fn path_of_a_source() {
    assert_eq!(split_source_path("a/b/c"), Ok(("a".to_string(), "b/c".to_string())));
    assert_eq!(
        split_source_path("a\\b"),
        Err("bad path \"a\\\\b\"; expected <namespace>/<repo>".to_string())
    );
    assert_eq!(bad_source_path("'x'"), "bad path 'x'; expected <namespace>/<repo>");
    assert_eq!(no_such_source("/s/a/b"), "no jj source repo at /s/a/b");
    assert_eq!(source_log_failed("spawn jj"), "jj log failed: spawn jj");
}

#[test]
fn opening_a_source() {
    let map = PrMap::new();
    let failed = || Err("spawn jj".to_string());
    let none = || Ok(vec![line(commit("x"))]);
    let bad = "bad path \"ab\"; expected <namespace>/<repo>";
    for has_jj in [false, true] {
        assert_eq!(open_source("ab", "/s", has_jj, failed(), &map).unwrap_err(), bad);
        assert_eq!(open_source("ab", "/s", has_jj, none(), &map).unwrap_err(), bad);
    }
    let missing = "no jj source repo at /s/a/b";
    assert_eq!(open_source("a/b", "/s/a/b", false, failed(), &map).unwrap_err(), missing);
    assert_eq!(open_source("a/b", "/s/a/b", false, none(), &map).unwrap_err(), missing);
    assert_eq!(
        open_source("a/b", "/s/a/b", true, failed(), &map).unwrap_err(),
        "jj log failed: spawn jj"
    );
    assert!(open_source("a/b", "/s/a/b", true, none(), &map).unwrap().is_empty());
    let mut c = with_pr("y", Some(5));
    c.pr_state = Some(PrState::Open);
    let shown = open_source("a/b", "/s", true, Ok(vec![line(c), line(commit("x"))]), &map).unwrap();
    assert_eq!(shown.len(), 1);
    assert_eq!(shown[0].commit.as_ref().unwrap().commit_id, "y");
}

#[test]
fn page_of_a_source() {
    let mut map = PrMap::new();
    map.insert(
        "o".to_string(),
        "r".to_string(),
        5,
        PrInfo {
            is_draft: false,
            title: "on GitHub".to_string(),
            state: PrState::Open,
            review_decision: ReviewDecision::Undecided,
        },
    );
    let mut c = commit("x");
    c.pr_url = Some("https://github.com/o/r/pull/5".to_string());
    c.pr_number = Some(5);
    let focused = focus_source(vec![line(commit("w")), line(c)], &map);
    assert_eq!(focused.len(), 1);
    let nav = render_nav(Section::Sources, LastSync::Ahead);
    let t = tags(&[("x", "work")]);
    let html = render_source("n<", "r", "/s/n/r", &focused, Some(vec![line(commit("x"))]), &t, LastSync::Ahead);
    let row = render_log_line(&focused[0], &t, None);
    let md = render_copy_button("md-src-n--r", &build_source_md("n<", "r", &focused, &t));
    assert_eq!(
        html,
        format!("{PAGE_HEAD}{nav}{CONTROLS}<p class=\"sub\"><a href=\"/sources\">&larr; all sources</a> &middot; <code>/s/n/r</code></p>\n<h2>n&lt;/r</h2>\n{md}<div class=\"stack\">\n{row}</div>\n{PAGE_TAIL}")
    );
    assert!(row.contains("on GitHub") && row.contains("href=\"/w/work\""));
    let empty = render_source("n", "r", "/s", &focused, None, &vec![], LastSync::Ahead);
    assert!(empty.contains("<h2>n/r</h2>\n<p class=\"empty\">no commits with open PRs</p>\n<script>"));
}
