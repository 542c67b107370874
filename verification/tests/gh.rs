use branch::gh::{
    fetch_pr_map, parse_decision, parse_pr_url, parse_state, pr_list_args, repo_slug, PrInfo, PrMap,
    PrRow, PrState, RepoReply, ReviewDecision,
};

fn row(number: u64, title: &str, state: &str, review: &str) -> PrRow {
    PrRow {
        number,
        is_draft: false,
        title: title.to_string(),
        state: state.to_string(),
        review_decision: review.to_string(),
    }
}

fn info(title: &str) -> PrInfo {
    PrInfo {
        is_draft: true,
        title: title.to_string(),
        state: PrState::Open,
        review_decision: ReviewDecision::Undecided,
    }
}

#[test]
fn gh_parses_pr_url() {
    let u = "https://github.com/Specter-Co/qrt/pull/1762";
    assert_eq!(
        parse_pr_url(u),
        Some(("Specter-Co".into(), "qrt".into(), 1762))
    );
}

#[test]
fn rejects_non_pr_url() {
    assert!(parse_pr_url("https://github.com/Specter-Co/qrt/issues/1").is_none());
    assert!(parse_pr_url("https://example.com/x/y/pull/1").is_none());
}

#[test]
fn pr_url_variants() {
    let expected = Some(("o".to_string(), "r".to_string(), 7));
    assert_eq!(parse_pr_url("http://github.com/o/r/pull/7"), expected);
    assert_eq!(parse_pr_url("https://github.com/o/r/pulls/7"), expected);
    assert_eq!(parse_pr_url("https://github.com/o/r/pull/7///"), expected);
    assert_eq!(parse_pr_url("https://github.com/o/r/pull/+7"), expected);
    assert_eq!(
        parse_pr_url("https://github.com///pull/7"),
        Some(("".to_string(), "".to_string(), 7))
    );
}

#[test]
fn pr_url_that_is_none() {
    assert_eq!(parse_pr_url(""), None);
    assert_eq!(parse_pr_url("https://github.com/"), None);
    assert_eq!(parse_pr_url("https://github.com/o/r/pull"), None);
    assert_eq!(parse_pr_url("https://github.com/o/r/pull/"), None);
    assert_eq!(parse_pr_url("https://github.com/o/r/pull/1/files"), None);
    assert_eq!(parse_pr_url("https://github.com/o/r/pull/7/files/"), None);
    assert_eq!(parse_pr_url("https://github.com/o/r/pull//7"), None);
    assert_eq!(parse_pr_url("https://github.com/o/r/pull/x7"), None);
    assert_eq!(parse_pr_url("https://github.com/o/r/pull/-7"), None);
    assert_eq!(parse_pr_url(" https://github.com/o/r/pull/7"), None);
    assert_eq!(
        parse_pr_url("https://github.com/o/r/pull/18446744073709551616"),
        None
    );
}

#[test]
fn pr_url_is_read_back() {
    for n in [0u64, 1, 10, 1762, u64::MAX] {
        let url = format!("https://github.com/some-owner/a.repo/pull/{n}");
        assert_eq!(
            parse_pr_url(&url),
            Some(("some-owner".to_string(), "a.repo".to_string(), n))
        );
    }
}

#[test]
fn states_and_decisions() {
    assert_eq!(parse_state("OPEN"), PrState::Open);
    assert_eq!(parse_state("MERGED"), PrState::Merged);
    assert_eq!(parse_state("CLOSED"), PrState::Closed);
    assert_eq!(parse_state(""), PrState::Open);
    assert_eq!(parse_state("merged"), PrState::Open);
    assert_eq!(parse_decision("APPROVED"), ReviewDecision::Approved);
    assert_eq!(
        parse_decision("CHANGES_REQUESTED"),
        ReviewDecision::ChangesRequested
    );
    assert_eq!(
        parse_decision("REVIEW_REQUIRED"),
        ReviewDecision::ReviewRequired
    );
    assert_eq!(parse_decision(""), ReviewDecision::Undecided);
}

#[test]
fn map_replaces_and_finds() {
    let (o, r) = ("o".to_string(), "r".to_string());
    let mut map = PrMap::new();
    assert!(map.is_empty());
    assert_eq!(map.len(), 0);
    map.insert(o.clone(), r.clone(), 1, info("one"));
    map.insert(o.clone(), r.clone(), 2, info("two"));
    map.insert(o.clone(), r.clone(), 1, info("other"));
    assert!(!map.is_empty());
    assert_eq!(map.len(), 2);
    assert_eq!(map.get(&o, &r, 1).unwrap().title, "other");
    assert_eq!(map.get(&o, &r, 2).unwrap().title, "two");
    assert!(map.get(&r, &o, 1).is_none());
    assert!(map.get(&o, &r, 3).is_none());
    let copy = map.clone();
    assert_eq!(copy.len(), 2);
    assert_eq!(copy.get(&o, &r, 1).unwrap().title, "other");
}

#[test]
fn replies_make_the_map() {
    let replies = vec![
        RepoReply {
            owner: "o".to_string(),
            repo: "a".to_string(),
            rows: vec![
                row(1, "first", "OPEN", "APPROVED"),
                row(2, "second", "MERGED", ""),
                row(1, "again", "CLOSED", "REVIEW_REQUIRED"),
            ],
        },
        RepoReply {
            owner: "o".to_string(),
            repo: "b".to_string(),
            rows: vec![row(1, "elsewhere", "?", "CHANGES_REQUESTED")],
        },
    ];
    let map = fetch_pr_map(&replies);
    assert_eq!(map.len(), 3);
    let (o, a, b) = ("o".to_string(), "a".to_string(), "b".to_string());
    let again = map.get(&o, &a, 1).unwrap();
    assert_eq!(again.title, "again");
    assert_eq!(again.state, PrState::Closed);
    assert_eq!(again.review_decision, ReviewDecision::ReviewRequired);
    assert_eq!(map.get(&o, &a, 2).unwrap().state, PrState::Merged);
    let other = map.get(&o, &b, 1).unwrap();
    assert_eq!(other.state, PrState::Open);
    assert_eq!(other.review_decision, ReviewDecision::ChangesRequested);
    assert!(map.get(&o, &b, 2).is_none());
    assert!(fetch_pr_map(&vec![]).is_empty());
}

#[test]
fn gh_command() {
    assert_eq!(repo_slug("o", "r"), "o/r");
    assert_eq!(
        pr_list_args("o", "r"),
        [
            "pr",
            "list",
            "--repo",
            "o/r",
            "--state",
            "all",
            "--json",
            "number,isDraft,title,state,reviewDecision",
            "--limit",
            "500"
        ]
    );
}
