use branch::jj::{
    attach_prs, default_log, extract_pr_url, graph_log_args, graph_log_is_clean, log_revs,
    log_revs_args, parse_graph_log, parse_pr_number, parse_trailer_log, pick_revset, probe_args,
    run_graph_log, run_trailer_log, split_graph_and_id, stack, trailer_log_args, RevsetStep,
    TEMPLATE, TRAILER_TEMPLATE,
};

const ROW: &str = "@  abcdef012345\u{1f}0123456789ab\u{1f}1\u{1f}aaaaaaaaaaaa,bbbbbbbbbbbb\u{1f} a title \u{1f} with more \n";

#[test]
fn jj_parses_pr_url() {
    let d = "feat: thing\n\nbody body\n\nPull Request: https://github.com/Specter-Co/qrt/pull/1762\n";
    assert_eq!(
        extract_pr_url(d).as_deref(),
        Some("https://github.com/Specter-Co/qrt/pull/1762")
    );
    assert_eq!(parse_pr_number("https://github.com/Specter-Co/qrt/pull/1762"), Some(1762));
}

#[test]
fn first_trailer_counts() {
    assert_eq!(extract_pr_url("Pull Request: a\nPull Request: b").as_deref(), Some("a"));
    assert_eq!(extract_pr_url("  Pull Request:x  \r\n").as_deref(), Some("x"));
    assert_eq!(extract_pr_url("Pull Request:").as_deref(), Some(""));
    assert_eq!(extract_pr_url("see Pull Request: a"), None);
    assert_eq!(extract_pr_url(""), None);
}

#[test]
fn pr_numbers() {
    assert_eq!(parse_pr_number("https://github.com/o/r/pull/5//"), Some(5));
    assert_eq!(parse_pr_number("12"), Some(12));
    assert_eq!(parse_pr_number("https://github.com/o/r/pull/5/files"), None);
    assert_eq!(parse_pr_number(""), None);
    assert_eq!(parse_pr_number("/"), None);
}

#[test]
fn graph_and_id_are_split() {
    assert_eq!(
        split_graph_and_id("@  abcdef012345"),
        ("@  ".to_string(), "abcdef012345".to_string())
    );
    assert_eq!(
        split_graph_and_id("\u{2502} \u{25cb}  abcdef012345"),
        ("\u{2502} \u{25cb}  ".to_string(), "abcdef012345".to_string())
    );
    assert_eq!(
        split_graph_and_id("abcdef01234"),
        ("abcdef01234".to_string(), "".to_string())
    );
    assert_eq!(
        split_graph_and_id("@  abcde 012345"),
        ("@  abcde 012345".to_string(), "".to_string())
    );
}

#[test]
fn row_is_read_back() {
    let lines = parse_graph_log(ROW);
    assert_eq!(lines.len(), 1);
    assert_eq!(lines[0].graph, "@  ");
    let c = lines[0].commit.as_ref().unwrap();
    assert_eq!(c.change_id, "abcdef012345");
    assert_eq!(c.commit_id, "0123456789ab");
    assert!(c.empty);
    assert_eq!(c.parents, ["aaaaaaaaaaaa", "bbbbbbbbbbbb"]);
    assert_eq!(c.title, "a title \u{1f} with more");
    assert!(c.pr_url.is_none() && c.pr_number.is_none() && c.pr_state.is_none());
}

#[test]
fn connectors_and_short_rows() {
    let log = "\u{251c}\u{2500}\u{256e}\r\n\r\n\n\u{2502} x\u{1f}short\u{1f}0\u{1f}\u{1f}t\na\u{1f}0123456789ab\u{1f}0\n~\n";
    let lines = parse_graph_log(log);
    assert_eq!(lines.len(), 4);
    assert!(lines.iter().all(|l| l.commit.is_none()));
    assert_eq!(lines[0].graph, "\u{251c}\u{2500}\u{256e}");
    assert_eq!(lines[1].graph, "\u{2502} x\u{1f}short\u{1f}0\u{1f}\u{1f}t");
    assert_eq!(lines[3].graph, "~");
    assert!(parse_graph_log("").is_empty());
}

#[test]
fn no_parents_and_no_title() {
    let lines = parse_graph_log("o  zzzzzzzzzzzz\u{1f}0123456789ab\u{1f}0\u{1f}\u{1f}");
    let c = lines[0].commit.as_ref().unwrap();
    assert!(c.parents.is_empty());
    assert_eq!(c.title, "");
    assert!(!c.empty);
}

#[test]
fn unclean_log_is_refused() {
    // Twelve bytes before the separator is the middle of the box character.
    let log = "\u{2502}abcdefghij\u{1f}0123456789ab\u{1f}0\u{1f}\u{1f}t\n";
    assert!(!graph_log_is_clean(log));
    assert!(run_graph_log(log.as_bytes()).is_none());
    assert!(stack(None, log.as_bytes()).is_none());
    assert!(graph_log_is_clean(ROW));
}

#[test]
fn invalid_bytes_are_replaced() {
    let lines = run_graph_log(b"a\xffb\n").unwrap();
    assert_eq!(lines[0].graph, "a\u{fffd}b");
}

#[test]
fn trailers_are_read() {
    let log = "aaaaaaaaaaaa\u{1f}t\n\nPull Request: u1\n\u{1e}\nbbbbbbbbbbbb\u{1f}no trailer\n\u{1e}cccccccccccc\u{1e} \n\u{1e}aaaaaaaaaaaa\u{1f}Pull Request: u2\u{1e}";
    let trailers = parse_trailer_log(log);
    assert_eq!(
        trailers,
        [
            ("aaaaaaaaaaaa".to_string(), "u1".to_string()),
            ("aaaaaaaaaaaa".to_string(), "u2".to_string())
        ]
    );
    assert_eq!(run_trailer_log(log.as_bytes()), trailers);
    let lines = attach_prs(
        parse_graph_log("@  aaaaaaaaaaaa\u{1f}0123456789ab\u{1f}0\u{1f}\u{1f}t\n~\n"),
        &trailers,
    );
    assert_eq!(lines[0].commit.as_ref().unwrap().pr_url.as_deref(), Some("u2"));
    assert_eq!(lines[0].commit.as_ref().unwrap().pr_number, None);
    assert!(lines[1].commit.is_none());
}

#[test]
fn stack_joins_both_logs() {
    let trailer = "abcdef012345\u{1f}x\nPull Request: https://github.com/o/r/pull/9\n\u{1e}";
    let lines = stack(Some(trailer.as_bytes()), ROW.as_bytes()).unwrap();
    let c = lines[0].commit.as_ref().unwrap();
    assert_eq!(c.pr_url.as_deref(), Some("https://github.com/o/r/pull/9"));
    assert_eq!(c.pr_number, Some(9));
    let plain = default_log(None, ROW.as_bytes()).unwrap();
    assert!(plain[0].commit.as_ref().unwrap().pr_url.is_none());
    let both = default_log(Some(trailer.as_bytes()), ROW.as_bytes()).unwrap();
    assert_eq!(both[0].commit.as_ref().unwrap().pr_number, Some(9));
}

#[test]
fn revsets_are_tried_in_order() {
    assert!(matches!(pick_revset(&vec![]), RevsetStep::Try(r) if r == "trunk()..@"));
    assert!(matches!(pick_revset(&vec![false]), RevsetStep::Try(r) if r == "main..@"));
    assert!(matches!(pick_revset(&vec![false, false]), RevsetStep::Try(r) if r == "master..@"));
    assert!(matches!(pick_revset(&vec![false, false, false]), RevsetStep::Unusable));
    assert!(matches!(pick_revset(&vec![true]), RevsetStep::Use(r) if r == "trunk()..@"));
    assert!(matches!(pick_revset(&vec![false, true]), RevsetStep::Use(r) if r == "main..@"));
    assert!(matches!(pick_revset(&vec![false, false, true]), RevsetStep::Use(r) if r == "master..@"));
}

#[test]
fn jj_commands() {
    assert_eq!(
        probe_args("main..@"),
        ["--ignore-working-copy", "log", "--no-graph", "-r", "main..@", "-T", "\"\""]
    );
    assert_eq!(
        graph_log_args(None),
        ["--ignore-working-copy", "log", "--color=never", "-T", TEMPLATE]
    );
    assert_eq!(
        graph_log_args(Some("x")),
        ["--ignore-working-copy", "log", "--color=never", "-r", "x", "-T", TEMPLATE]
    );
    assert_eq!(
        trailer_log_args(Some("x")),
        ["--ignore-working-copy", "log", "--no-graph", "-r", "x", "-T", TRAILER_TEMPLATE]
    );
    assert_eq!(log_revs_args(&vec![]), None);
    assert_eq!(
        log_revs_args(&vec!["a".to_string(), "b".to_string()]).unwrap(),
        ["--ignore-working-copy", "log", "--color=never", "-r", "a|b", "-T", TEMPLATE]
    );
    assert!(log_revs(&vec![], b"anything\n").unwrap().is_empty());
    assert_eq!(log_revs(&vec!["a".to_string()], b"x\ny\n").unwrap().len(), 2);
}

#[test]
fn templates() {
    assert_eq!(
        TEMPLATE,
        "change_id.short() ++ \"\\x1f\"++ commit_id.short() ++ \"\\x1f\"++ if(empty, \"1\", \"0\") ++ \"\\x1f\"++ parents.map(|p| p.commit_id().short()).join(\",\") ++ \"\\x1f\"++ description.first_line() ++ \"\\n\""
    );
    assert_eq!(
        TRAILER_TEMPLATE,
        "change_id.short() ++ \"\\x1f\"++ description ++ \"\\x1e\""
    );
}
