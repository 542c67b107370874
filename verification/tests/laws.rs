use branch::discovery::{scan, Child, Place, Workspace};
use branch::escape::{html_escape, url_path_escape};
use branch::focus::{focus_commit_ids, focus_on_open};
use branch::gh::{parse_pr_url, PrInfo, PrMap, PrState, ReviewDecision};
use branch::jj::{parse_graph_log, parse_trailer_log, split_graph_and_id, Commit, LogLine};
use branch::log_view::{annotate_drafts, trim_top_empty};
use branch::markdown::build_repo_md;
use branch::site::focus_source;
use branch::text::{chars_of, lines, text_of};

fn commit(id: &str, url: Option<&str>) -> LogLine {
    LogLine {
        graph: "o ".to_string(),
        commit: Some(Commit {
            change_id: "c".to_string(),
            commit_id: id.to_string(),
            empty: false,
            title: "t".to_string(),
            parents: vec![],
            pr_url: url.map(|u| u.to_string()),
            pr_number: None,
            is_draft: None,
            pr_title: None,
            pr_state: None,
            review_decision: None,
        }),
    }
}

fn map_with(state: PrState) -> PrMap {
    let mut map = PrMap::new();
    map.insert(
        "o".to_string(),
        "r".to_string(),
        1,
        PrInfo {
            is_draft: true,
            title: "known".to_string(),
            state,
            review_decision: ReviewDecision::Undecided,
        },
    );
    map
}

const URL: &str = "https://github.com/o/r/pull/1";

#[test]
fn escaped_text_has_no_markup() {
    let all: String = (1u32..0x300).filter_map(char::from_u32).collect();
    let escaped = html_escape(&all);
    assert!(!escaped.contains(['<', '>', '"', '\'']));
    let back = escaped
        .replace("&lt;", "<")
        .replace("&gt;", ">")
        .replace("&quot;", "\"")
        .replace("&#39;", "'")
        .replace("&amp;", "&");
    assert_eq!(back, all);
    assert_eq!(html_escape("a<") + &html_escape(">b"), html_escape("a<>b"));
}

#[test]
fn escaped_path_is_plain() {
    let all: String = (1u32..0x300).filter_map(char::from_u32).collect();
    let escaped = url_path_escape(&all);
    assert!(escaped.chars().all(|c| c.is_ascii_alphanumeric() || "-_.~/%".contains(c)));
    let mut bytes = Vec::new();
    let raw = escaped.as_bytes();
    let mut i = 0;
    while i < raw.len() {
        if raw[i] == b'%' {
            let hex = std::str::from_utf8(&raw[i + 1..i + 3]).unwrap();
            bytes.push(u8::from_str_radix(hex, 16).unwrap());
            i += 3;
        } else {
            bytes.push(raw[i]);
            i += 1;
        }
    }
    assert_eq!(String::from_utf8(bytes).unwrap(), all);
}

#[test]
fn annotating_twice_is_annotating_once() {
    let map = map_with(PrState::Open);
    let once = annotate_drafts(vec![commit("a", Some(URL))], &map);
    let twice = annotate_drafts(once.clone(), &map);
    assert_eq!(format!("{once:?}"), format!("{twice:?}"));
}

#[test]
fn trimming_twice_is_trimming_once() {
    let mut blank = commit("b", None);
    if let Some(c) = blank.commit.as_mut() {
        c.empty = true;
        c.title = String::new();
    }
    let once = trim_top_empty(vec![blank.clone(), commit("a", None), blank]);
    assert_eq!(once.len(), 2);
    let twice = trim_top_empty(once.clone());
    assert_eq!(format!("{once:?}"), format!("{twice:?}"));
}

#[test]
fn known_open_pr_is_shown() {
    let lines = || vec![commit("x", None), commit("a", Some(URL)), commit("y", None)];
    let shown = focus_source(lines(), &map_with(PrState::Open));
    assert_eq!(focus_commit_ids(&shown), ["a"]);
    assert!(focus_source(lines(), &map_with(PrState::Merged)).is_empty());
    assert!(focus_source(lines(), &PrMap::new()).is_empty());
}

#[test]
fn no_commit_is_asked_for_twice() {
    let map = map_with(PrState::Open);
    let lines = annotate_drafts(
        vec![commit("a", Some(URL)), commit("b", None), commit("a", Some(URL)), commit("b", None)],
        &map,
    );
    assert_eq!(focus_commit_ids(&focus_on_open(lines)), ["a", "b"]);
}

#[test]
fn parsed_names_have_no_slash() {
    for url in ["https://github.com/a/b/pull/1", "https://github.com//b/pulls/1/"] {
        let (owner, repo, _) = parse_pr_url(url).unwrap();
        assert!(!owner.contains('/') && !repo.contains('/'));
    }
}

#[test]
fn graph_and_id_make_up_the_whole() {
    for s in ["", "@  abcdef012345", "abcdef012345", "\u{2502} no id at all"] {
        let (graph, id) = split_graph_and_id(s);
        assert_eq!(graph + &id, s);
    }
}

#[test]
fn written_lines_are_read_back() {
    let written = ["a", "", " b \r c"];
    let log: String = written.iter().map(|l| format!("{l}\n")).collect();
    let chars = chars_of(&log);
    let read: Vec<String> = lines(&chars).into_iter().map(text_of).collect();
    assert_eq!(read, written);
}

#[test]
fn written_log_is_read_back() {
    let log = "@  aaaaaaaaaaaa\u{1f}0123456789ab\u{1f}0\u{1f}p1,p2\u{1f}one\n|\no  bbbbbbbbbbbb\u{1f}0123456789cd\u{1f}1\u{1f}\u{1f}\n";
    let rows = parse_graph_log(log);
    assert_eq!(rows.len(), 3);
    assert_eq!(rows[0].commit.as_ref().unwrap().parents, ["p1", "p2"]);
    assert_eq!(rows[1].graph, "|");
    assert!(rows[2].commit.as_ref().unwrap().empty);
    let trailers = parse_trailer_log("aaaaaaaaaaaa\u{1f}d\nPull Request: u\n\u{1e}bbbbbbbbbbbb\u{1f}d\u{1e}");
    assert_eq!(trailers, [("aaaaaaaaaaaa".to_string(), "u".to_string())]);
}

#[test]
fn workspaces_are_found_on_every_level() {
    let inner = Workspace {
        path: 2,
        branch: "inner".to_string(),
        repos: vec![],
    };
    let root = Place::Listing(vec![
        Child {
            name: "a".to_string(),
            is_dir: true,
            place: Place::Listing(vec![Child {
                name: "b".to_string(),
                is_dir: true,
                place: Place::Workspace(inner),
            }]),
        },
        Child {
            name: "c".to_string(),
            is_dir: true,
            place: Place::Workspace(Workspace {
                path: 1,
                branch: "c".to_string(),
                repos: vec![],
            }),
        },
    ]);
    let found = scan(root);
    let branches: Vec<&str> = found.iter().map(|w| w.branch.as_str()).collect();
    assert_eq!(branches, ["c", "inner"]);
}

#[test]
fn entry_of_a_draft_ends_in_its_mark() {
    let lines = annotate_drafts(vec![commit("a", Some(URL))], &map_with(PrState::Open));
    let md = build_repo_md("r", &lines, true);
    assert!(md.lines().nth(1).unwrap().ends_with(" `draft`"));
    let lines = annotate_drafts(vec![commit("a", Some(URL))], &map_with(PrState::Closed));
    let md = build_repo_md("r", &lines, true);
    assert!(md.lines().nth(1).unwrap().ends_with(" `closed`"));
}
