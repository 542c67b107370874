use branch::daemon::{bind_ips, detect_ip, expand_tilde, head_line, tailscale_args, Expansion};
use branch::remote::{
    bookmark_exists_local, bookmark_exists_remote, cmd_nix_local, cmd_nix_remote, convert_to_nix_ssh_url, find_origin,
    get_remote_url, lists_local, lists_remote, local_bookmark_args, local_flake, local_flake_url,
    nix_local_url,
    parse_github_url, remote_bookmark_args, remote_list_args, sanitize_workspace_name, ssh_url, LocalFlake,
};

#[test]
fn github_urls() {
    let expected = Ok(("owner".to_string(), "repo".to_string()));
    for url in [
        "git@github.com:owner/repo.git",
        "git@github.com:owner/repo",
        "https://github.com/owner/repo.git",
        "https://github.com/owner/repo",
        "ssh://git@github.com/owner/repo.git",
        "ssh://git@github.com/owner/repo",
    ] {
        assert_eq!(parse_github_url(url), expected);
    }
    assert_eq!(
        parse_github_url("git@github.com:a/b/c.git"),
        Ok(("a".to_string(), "b/c".to_string()))
    );
    assert_eq!(
        parse_github_url("git@github.com:owner"),
        Err("Cannot parse GitHub URL: git@github.com:owner".to_string())
    );
    assert_eq!(
        parse_github_url("https://example.com/owner/repo"),
        Err("Cannot parse GitHub URL: https://example.com/owner/repo".to_string())
    );
}

#[test]
fn clone_url_is_read_back() {
    assert_eq!(ssh_url("dgramop-specter", "branch"), "git@github.com:dgramop-specter/branch.git");
    for (ns, repo) in [("o", "r"), ("", ""), ("a.b", "c.git"), ("n", "x/y")] {
        assert_eq!(
            parse_github_url(&ssh_url(ns, repo)),
            Ok((ns.to_string(), repo.to_string()))
        );
    }
}

#[test]
fn nix_urls() {
    let expected = "git+ssh://git@github.com/dgramop-specter/branch?ref=dhruv/make_repo_better";
    for url in [
        "git@github.com:dgramop-specter/branch.git",
        "ssh://git@github.com/dgramop-specter/branch",
        "https://github.com/dgramop-specter/branch.git",
    ] {
        assert_eq!(
            convert_to_nix_ssh_url(url, "dhruv/make_repo_better").as_deref(),
            Ok(expected)
        );
    }
    assert_eq!(
        convert_to_nix_ssh_url("git@github.com:justowner", "b").as_deref(),
        Ok("git+ssh://git@github.com/justowner?ref=b")
    );
    assert_eq!(
        convert_to_nix_ssh_url("file:///x", "b"),
        Err("Unsupported remote URL format: file:///x".to_string())
    );
    assert_eq!(
        nix_local_url("/home/user/trees/dhruv/make_repo_better/branch", None),
        "git+file:///home/user/trees/dhruv/make_repo_better/branch"
    );
    assert_eq!(nix_local_url("/s/o/r", Some("b")), "git+file:///s/o/r?ref=b");
}

#[test]
fn origin_is_found() {
    assert_eq!(
        find_origin("upstream a\norigin  b c \norigin d\n").as_deref(),
        Some("b c")
    );
    assert_eq!(find_origin("origin"), None);
    assert_eq!(find_origin(" origin x"), None);
    assert_eq!(find_origin("origins x"), None);
    assert_eq!(
        get_remote_url(Some(b"origin\tgit@github.com:o/r.git\n")).as_deref(),
        Ok("git@github.com:o/r.git")
    );
    assert_eq!(get_remote_url(Some(b"")), Err("No 'origin' remote found".to_string()));
    assert_eq!(get_remote_url(None), Err("jj git remote list failed".to_string()));
    assert_eq!(get_remote_url(Some(b"origin \xff\n")).as_deref(), Ok("\u{fffd}"));
}

#[test]
fn bookmarks_are_found() {
    assert!(lists_local("other: x\nfeature: abc\n", "feature"));
    assert!(lists_local("feature-two: abc\n", "feature"));
    assert!(!lists_local("  feature: abc\n", "feature"));
    assert!(!lists_local("", "feature"));
    assert!(lists_remote("feature: abc\n  feature@origin: abc\n", "feature"));
    assert!(!lists_remote("feature: abc\n  @origin: abc\n", "feature"));
    assert!(bookmark_exists_local(Some(b"b: x\n"), "b"));
    assert!(!bookmark_exists_local(None, "b"));
    assert!(bookmark_exists_remote(Some(b"b@origin: x\n"), "b"));
    assert!(!bookmark_exists_remote(Some(b"b: x\n"), "b"));
    assert!(!bookmark_exists_remote(None, "b"));
}

#[test]
fn remote_commands() {
    assert_eq!(remote_list_args(), ["git", "remote", "list"]);
    assert_eq!(local_bookmark_args("b"), ["bookmark", "list", "b"]);
    assert_eq!(remote_bookmark_args("b"), ["bookmark", "list", "--all-remotes", "b"]);
    assert_eq!(sanitize_workspace_name("a/b/c_d"), "a_b_c_d");
}

#[test]
fn daemon_settings() {
    assert!(matches!(expand_tilde("~/trees", true), Expansion::BelowHome(r) if r == "trees"));
    assert!(matches!(expand_tilde("~/trees", false), Expansion::AsGiven));
    assert!(matches!(expand_tilde("~trees", true), Expansion::AsGiven));
    assert!(matches!(expand_tilde("/a/~/b", true), Expansion::AsGiven));
    assert_eq!(bind_ips(vec![3, 4], Some(1), 2), [3, 4]);
    assert_eq!(bind_ips(vec![], Some(1), 2), [1, 2]);
    assert_eq!(bind_ips(vec![], None, 2), [2]);
    assert_eq!(tailscale_args(), ["ip", "-4"]);
    assert_eq!(detect_ip(b" 100.1.2.3 \nfd7a::1\n").as_deref(), Some("100.1.2.3"));
    assert_eq!(detect_ip(b"\nx").as_deref(), Some(""));
    assert_eq!(detect_ip(b""), None);
    assert_eq!(detect_ip(b"\xff").as_deref(), Some("\u{fffd}"));
    assert_eq!(head_line("a\nb").as_deref(), Some("a"));
}

#[test]
fn nix_from_the_list_of_remotes() {
    assert_eq!(
        cmd_nix_remote(Some(b"origin git@github.com:o/r.git\n"), "b").as_deref(),
        Ok("git+ssh://git@github.com/o/r?ref=b")
    );
    assert_eq!(
        cmd_nix_remote(Some(b"origin file:///x\n"), "b"),
        Err("Unsupported remote URL format: file:///x".to_string())
    );
    assert_eq!(cmd_nix_remote(None, "b"), Err("jj git remote list failed".to_string()));
    assert_eq!(
        cmd_nix_local(Some(b"origin https://github.com/o/r\n")),
        Ok(("o".to_string(), "r".to_string()))
    );
    assert_eq!(
        cmd_nix_local(Some(b"origin git@github.com:o\n")),
        Err("Cannot parse GitHub URL: git@github.com:o".to_string())
    );
    assert_eq!(cmd_nix_local(Some(b"")), Err("No 'origin' remote found".to_string()));
}

#[test]
fn local_flakes() {
    let list: Option<&[u8]> = Some(b"origin git@github.com:o/r.git\n");
    assert!(matches!(local_flake(true, list), Ok(LocalFlake::Own)));
    assert!(matches!(local_flake(true, None), Ok(LocalFlake::Own)));
    match local_flake(false, list).unwrap() {
        LocalFlake::Source(namespace, name) => assert_eq!((namespace.as_str(), name.as_str()), ("o", "r")),
        LocalFlake::Own => panic!("not its own"),
    }
    assert_eq!(local_flake(false, None).unwrap_err(), "jj git remote list failed");
    assert_eq!(local_flake(false, Some(b"")).unwrap_err(), "No 'origin' remote found");
    assert_eq!(
        local_flake(false, Some(b"origin x\n")).unwrap_err(),
        "Cannot parse GitHub URL: x"
    );
    let source = LocalFlake::Source("o".to_string(), "r".to_string());
    assert_eq!(
        local_flake_url(&LocalFlake::Own, true, "/t/b/r", "/home/t/b/r", "/t/b/r", "b").as_deref(),
        Ok("git+file:///home/t/b/r")
    );
    assert_eq!(
        local_flake_url(&source, true, "/s/o/r", "/home/s/o/r", "/t/b/r", "b").as_deref(),
        Ok("git+file:///home/s/o/r?ref=b")
    );
    assert_eq!(
        local_flake_url(&source, false, "/s/o/r", "", "/t/b/r", "b"),
        Err("Source repo not found at /s/o/r (expected for workspace /t/b/r)".to_string())
    );
}
