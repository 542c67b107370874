use branch::config::{
    branch_entry, branch_toml, quotes_are_countable, read_branch_config, BranchConfig, ConfigError,
};
use branch::migrate::{cmd_migrate, descends, find_branch_dirs, find_branch_toml, Migration, Node, Tree};

fn config(branch: &str) -> BranchConfig {
    BranchConfig {
        branch: branch.to_string(),
    }
}

#[test]
fn reads_the_branch() {
    let c = read_branch_config("branch = \"dhruv/make_repo_better\"\n").unwrap();
    assert_eq!(c.branch, "dhruv/make_repo_better");
    let c = read_branch_config("# note\nother = 3\nbranch = 'x'\n[table]\nbranch = 1\n").unwrap();
    assert_eq!(c.branch, "x");
}

#[test]
fn other_entries_do_not_matter() {
    for other in [
        "[x]\n\"$__toml_private_datetime\" = 1\n",
        "[x]\n\"$__toml_private_datetime\" = \"no date\"\n",
        "[x.y]\n\"$serde_json::private::RawValue\" = \"{\"\n",
        "x = {\"$serde_json::private::RawValue\" = 1}\n",
        "x = {\"$serde_json::private::Number\" = \"many\"}\n",
        "\"$__toml_private_datetime\" = 1\n",
        "x = nan\ny = [inf, -9223372036854775808, 1979-05-27T07:32:00Z, [true]]\nz.a.b = {}\n",
        "[[x]]\n\"\" = ''\n[[x]]\n",
    ] {
        let c = read_branch_config(&format!("branch = \"b\"\n{other}")).unwrap();
        assert_eq!(c.branch, "b");
    }
    let marked = "[branch]\n\"$__toml_private_datetime\" = \"1979-05-27\"\n";
    assert!(matches!(read_branch_config(marked), Err(ConfigError::NotText)));
}

#[test]
fn says_what_is_wrong() {
    assert!(matches!(read_branch_config(""), Err(ConfigError::Missing)));
    assert!(matches!(read_branch_config("branch = 1"), Err(ConfigError::NotText)));
    assert!(matches!(read_branch_config("[branch]\n"), Err(ConfigError::NotText)));
    assert!(matches!(read_branch_config("branch = 1979-05-27"), Err(ConfigError::NotText)));
    assert!(matches!(read_branch_config("branch = ["), Err(ConfigError::Syntax(_))));
    assert!(matches!(
        read_branch_config("branch = 'a'\nbranch = 'b'"),
        Err(ConfigError::Syntax(_))
    ));
    assert_eq!(read_branch_config("").unwrap_err().message(), "missing field `branch`");
    assert_eq!(
        read_branch_config("branch = true").unwrap_err().message(),
        "invalid type for `branch`, expected a string"
    );
    let syntax = read_branch_config("=").unwrap_err().message();
    assert!(syntax.starts_with("TOML parse error"));
}

#[test]
fn entries_are_looked_up() {
    let entries = vec![
        ("a".to_string(), Some("1".to_string())),
        ("branch".to_string(), Some("2".to_string())),
        ("branch".to_string(), None),
    ];
    assert_eq!(branch_entry(&entries).unwrap().branch, "2");
    assert!(matches!(branch_entry(&vec![]), Err(ConfigError::Missing)));
    assert!(matches!(
        branch_entry(&vec![("branch".to_string(), None)]),
        Err(ConfigError::NotText)
    ));
}

#[test]
fn writes_what_it_reads() {
    assert_eq!(branch_toml(&config("feature/auth")).unwrap(), "branch = \"feature/auth\"\n");
    for branch in [
        "",
        "main",
        "a b",
        "it's",
        "say \"hi\"",
        "'\"",
        "\"\"\"'''",
        "back\\slash",
        "back\\slash's",
        "two\nlines",
        "\nleading",
        "trailing\n",
        "cr\r\nlf",
        "tab\tbell\u{7}del\u{7f}nul\u{0}",
        "\u{e9}\u{1f980}",
        "'''\n\\",
        "ends in quotes\"\"",
        "\\''",
    ] {
        assert!(quotes_are_countable(branch));
        let text = branch_toml(&config(branch)).unwrap();
        assert_eq!(read_branch_config(&text).unwrap().branch, branch);
    }
}

#[test]
fn long_runs_of_quotes() {
    for q in ['"', '\''] {
        let run: String = std::iter::repeat(q).take(255).collect();
        assert!(quotes_are_countable(&run));
        let text = branch_toml(&config(&run)).unwrap();
        assert_eq!(read_branch_config(&text).unwrap().branch, run);
        let broken = format!("{run}x{run}");
        assert!(quotes_are_countable(&broken));
        let longer = format!("a{run}{q}b");
        assert!(!quotes_are_countable(&longer));
    }
    let mixed: String = std::iter::repeat("\"'").take(300).collect();
    assert!(quotes_are_countable(&mixed));
}

#[test]
fn nearest_file_counts() {
    assert_eq!(find_branch_toml(&vec![false, true, true]), Some(1));
    assert_eq!(find_branch_toml(&vec![true]), Some(0));
    assert_eq!(find_branch_toml(&vec![false, false]), None);
    assert_eq!(find_branch_toml(&vec![]), None);
}

fn tree(path: &str, children: Vec<Node<String>>) -> Tree<String> {
    Tree {
        path: path.to_string(),
        children,
    }
}

fn node(name: &str, is_dir: bool, has_git: bool, has_jj: bool, tree: Tree<String>) -> Node<String> {
    Node {
        name: name.to_string(),
        is_dir,
        has_git,
        has_jj,
        tree,
    }
}

#[test]
fn finds_parents_of_repositories() {
    let leaf = || tree("", vec![]);
    let root = tree(
        "/t",
        vec![
            node("direct", true, true, false, leaf()),
            node(
                "feature",
                true,
                false,
                false,
                tree(
                    "/t/feature",
                    vec![
                        node(
                            "auth",
                            true,
                            false,
                            false,
                            tree(
                                "/t/feature/auth",
                                vec![
                                    node("file", false, false, false, leaf()),
                                    node("front", true, true, false, leaf()),
                                    node("back", true, false, true, leaf()),
                                ],
                            ),
                        ),
                        node(".hidden", true, true, false, leaf()),
                    ],
                ),
            ),
            node("empty", true, false, false, tree("/t/empty", vec![])),
            node(
                "mixed",
                true,
                false,
                false,
                tree(
                    "/t/mixed",
                    vec![
                        node(
                            "sub",
                            true,
                            false,
                            false,
                            tree("/t/mixed/sub", vec![node("r", true, true, true, leaf())]),
                        ),
                        node("r", true, true, false, leaf()),
                    ],
                ),
            ),
        ],
    );
    assert_eq!(
        find_branch_dirs(root),
        [
            ("/t/feature/auth".to_string(), "feature/auth".to_string()),
            ("/t/mixed/sub".to_string(), "mixed/sub".to_string()),
            ("/t/mixed".to_string(), "mixed".to_string()),
        ]
    );
    assert!(descends("a", true, false, false));
    assert!(!descends("a", true, true, false));
    assert!(!descends("a", true, false, true));
    assert!(!descends(".a", true, false, false));
    assert!(!descends("a", false, false, false));
}

#[test]
fn migration_of_one_directory() {
    assert!(matches!(
        cmd_migrate("b", "/t/b/branch.toml", true, false),
        Migration::Say(m) if m == "[skip] b (branch.toml already exists)"
    ));
    assert!(matches!(
        cmd_migrate("b", "/t/b/branch.toml", true, true),
        Migration::Say(m) if m == "[skip] b (branch.toml already exists)"
    ));
    assert!(matches!(
        cmd_migrate("b", "/t/b/branch.toml", false, true),
        Migration::Say(m) if m == "[would create] b -> /t/b/branch.toml"
    ));
    match cmd_migrate("b", "/t/b/branch.toml", false, false) {
        Migration::Write(content, m) => {
            assert_eq!(content, "branch = \"b\"\n");
            assert_eq!(m, "[created] b -> /t/b/branch.toml");
        }
        _ => panic!("not written"),
    }
    let run: String = std::iter::repeat('\'').take(256).collect();
    assert!(matches!(cmd_migrate(&run, "p", false, false), Migration::Unwritable));
}
