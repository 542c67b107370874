use branch::config::ConfigError;
use branch::discovery::{
    enters, has_any_jj, load_workspace, scan, scan_sources, within_depth, workspace_at, Child, Entry,
    Namespace, Place, RepoKind, Workspace, MAX_DEPTH,
};

fn entry(name: &str, is_dir: bool, has_jj: bool, has_git: bool) -> Entry<String> {
    Entry {
        name: name.to_string(),
        path: format!("/x/{name}"),
        is_dir,
        has_jj,
        has_git,
    }
}

fn workspace(path: &str, branch: &str) -> Place<String> {
    Place::Workspace(Workspace {
        path: path.to_string(),
        branch: branch.to_string(),
        repos: vec![],
    })
}

fn child(name: &str, is_dir: bool, place: Place<String>) -> Child<String> {
    Child {
        name: name.to_string(),
        is_dir,
        place,
    }
}

#[test]
fn hidden_entries_are_not_entered() {
    assert!(enters("a", true));
    assert!(enters("", true));
    assert!(!enters("a", false));
    assert!(!enters(".git", true));
    assert!(!enters(".", true));
}

#[test]
fn workspace_lists_repositories_by_name() {
    let ws = workspace_at(
        "/x".to_string(),
        "b".to_string(),
        vec![
            entry("z", true, true, true),
            entry("plain", true, false, false),
            entry("a", true, false, true),
            entry("file", false, true, true),
            entry(".hidden", true, true, false),
            entry("m", true, true, false),
        ],
    );
    assert_eq!(ws.path, "/x");
    assert_eq!(ws.branch, "b");
    let seen: Vec<(&str, RepoKind)> = ws.repos.iter().map(|r| (r.name.as_str(), r.kind)).collect();
    assert_eq!(
        seen,
        [("a", RepoKind::GitOnly), ("m", RepoKind::Jj), ("z", RepoKind::Jj)]
    );
    assert_eq!(ws.repos[0].path, "/x/a");
    assert!(has_any_jj(&ws));
    let git_only = workspace_at("/y".to_string(), "b".to_string(), vec![entry("a", true, false, true)]);
    assert!(!has_any_jj(&git_only));
}

#[test]
fn workspace_from_its_file() {
    let ws = load_workspace(
        "/x".to_string(),
        "branch = \"feature/auth\"\n",
        vec![entry("a", true, true, false)],
    )
    .unwrap();
    assert_eq!(ws.branch, "feature/auth");
    assert_eq!(ws.repos.len(), 1);
    let missing = load_workspace("/x".to_string(), "other = 1\n", vec![]);
    assert!(matches!(missing, Err(ConfigError::Missing)));
}

#[test]
fn scan_is_sorted_by_branch_and_stable() {
    let root = Place::Listing(vec![
        child("one", true, workspace("/one", "b")),
        child("file", false, workspace("/file", "a")),
        child(".dot", true, workspace("/dot", "a")),
        child(
            "dir",
            true,
            Place::Listing(vec![
                child("two", true, workspace("/dir/two", "a")),
                child("three", true, workspace("/dir/three", "b")),
                child("bad", true, Place::Nothing),
            ]),
        ),
    ]);
    let found = scan(root);
    let seen: Vec<(&str, &str)> =
        found.iter().map(|w| (w.branch.as_str(), w.path.as_str())).collect();
    assert_eq!(seen, [("a", "/dir/two"), ("b", "/one"), ("b", "/dir/three")]);
    assert!(scan(Place::<String>::Nothing).is_empty());
    assert_eq!(scan(workspace("/", "root")).len(), 1);
}

#[test]
fn scan_stops_below_the_last_level() {
    for depth in 0..9 {
        let mut place = workspace("/deep", "deep");
        for _ in 0..depth {
            place = Place::Listing(vec![child("d", true, place)]);
        }
        assert_eq!(scan(place).len(), if depth <= MAX_DEPTH { 1 } else { 0 });
        assert_eq!(within_depth(depth), depth <= 6);
    }
}

#[test]
fn sources_are_sorted_by_namespace_and_name() {
    let found = scan_sources(vec![
        Namespace {
            name: "z".to_string(),
            is_dir: true,
            entries: Some(vec![entry("b", true, true, false), entry("a", true, true, true)]),
        },
        Namespace {
            name: "a".to_string(),
            is_dir: true,
            entries: Some(vec![
                entry("git", true, false, true),
                entry(".x", true, true, false),
                entry("c", true, true, false),
                entry("f", false, true, false),
            ]),
        },
        Namespace {
            name: "gone".to_string(),
            is_dir: true,
            entries: None,
        },
        Namespace {
            name: ".hidden".to_string(),
            is_dir: true,
            entries: Some(vec![entry("a", true, true, false)]),
        },
    ]);
    let seen: Vec<(&str, &str)> =
        found.iter().map(|s| (s.namespace.as_str(), s.name.as_str())).collect();
    assert_eq!(seen, [("a", "c"), ("z", "a"), ("z", "b")]);
}
