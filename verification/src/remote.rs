//! Where repositories come from: remotes, the URLs of GitHub, and bookmarks.
use vstd::prelude::*;

use crate::text;

verus! {

// ---------------------------------------------------------------------------------------------
// Remotes

/// The URL of the first remote called `origin`. A line gives the name and, behind the first white
/// space, the URL.
pub open spec fn origin_in(lines: Seq<Seq<char>>) -> Option<Seq<char>>
    decreases lines.len(),
{
    if lines.len() == 0 {
        None
    } else {
        match text::cut_white(lines[0]) {
            Some((name, url)) if name == "origin"@ => Some(text::trimmed(url)),
            _ => origin_in(lines.drop_first()),
        }
    }
}

/// The URL of `origin` in the list of remotes that jj prints.
pub fn find_origin(list: &str) -> (out: Option<String>)
    ensures
        out.deep_view() == origin_in(text::line_list(list@)),
{
    let chars = text::chars_of(list);
    let lines = text::lines(chars.as_slice());
    let ghost all = text::views(lines@);
    let mut i: usize = 0;
    assert(all.skip(0) =~= all);
    while i < lines.len()
        invariant
            i <= lines.len(),
            all == text::views(lines@),
            all == text::line_list(list@),
            origin_in(all) == origin_in(all.skip(i as int)),
        decreases lines.len() - i,
    {
        proof {
            assert(all.skip(i as int)[0] == lines@[i as int]@);
            assert(all.skip(i as int).drop_first() =~= all.skip(i + 1));
        }
        if let Some((name, url)) = text::split_white(lines[i]) {
            if text::is_text(name, "origin") {
                return Some(text::text_of(text::trim(url)));
            }
        }
        i += 1;
    }
    None
}

/// The URL of `origin`, from what `jj git remote list` printed (`None` where it failed), or why
/// there is none.
pub open spec fn origin_of(stdout: Option<&[u8]>) -> Result<Seq<char>, Seq<char>> {
    match stdout {
        None => Err("jj git remote list failed"@),
        Some(bytes) => match origin_in(text::line_list(text::utf8_lossy(bytes@))) {
            Some(url) => Ok(url),
            None => Err("No 'origin' remote found"@),
        },
    }
}

/// The URL of `origin`, from what `jj git remote list` printed (`None` where it failed).
pub fn get_remote_url(stdout: Option<&[u8]>) -> (out: Result<String, String>)
    ensures
        match out {
            Ok(url) => origin_of(stdout) == Ok::<Seq<char>, Seq<char>>(url@),
            Err(msg) => origin_of(stdout) == Err::<Seq<char>, Seq<char>>(msg@),
        },
{
    match stdout {
        None => Err("jj git remote list failed".to_owned()),
        Some(bytes) => match find_origin(text::from_utf8_lossy(bytes).as_str()) {
            Some(url) => Ok(url),
            None => Err("No 'origin' remote found".to_owned()),
        },
    }
}

/// The arguments that ask jj for the remotes.
pub fn remote_list_args() -> (out: Vec<String>)
    ensures
        out.deep_view() == seq!["git"@, "remote"@, "list"@],
{
    let out = vec!["git".to_owned(), "remote".to_owned(), "list".to_owned()];
    assert(out.deep_view() =~= seq!["git"@, "remote"@, "list"@]);
    out
}

// ---------------------------------------------------------------------------------------------
// URLs of GitHub

/// What stands behind `prefix` in `url`, without `.git` at the end.
pub open spec fn path_behind(url: Seq<char>, prefix: Seq<char>) -> Option<Seq<char>> {
    match text::after_prefix(url, prefix) {
        Some(rest) => match text::before_suffix(rest, ".git"@) {
            Some(path) => Some(path),
            None => Some(rest),
        },
        None => None,
    }
}

/// The path of a repository on GitHub, from its URL in one of three forms.
pub open spec fn github_path(url: Seq<char>) -> Option<Seq<char>> {
    match path_behind(url, "git@github.com:"@) {
        Some(path) => Some(path),
        None => match path_behind(url, "https://github.com/"@) {
            Some(path) => Some(path),
            None => path_behind(url, "ssh://git@github.com/"@),
        },
    }
}

/// The namespace and the name of a repository on GitHub: its path, cut at the first slash.
pub open spec fn github_repo(url: Seq<char>) -> Option<(Seq<char>, Seq<char>)> {
    match github_path(url) {
        Some(path) => text::cut(path, '/'),
        None => None,
    }
}

fn find_path_behind<'a>(url: &'a [char], prefix: &str) -> (out: Option<&'a [char]>)
    ensures
        match out {
            Some(path) => path_behind(url@, prefix@) == Some(path@),
            None => path_behind(url@, prefix@) is None,
        },
{
    match text::strip_prefix(url, prefix) {
        Some(rest) => match text::strip_suffix(rest, ".git") {
            Some(path) => Some(path),
            None => Some(rest),
        },
        None => None,
    }
}

fn find_github_path<'a>(url: &'a [char]) -> (out: Option<&'a [char]>)
    ensures
        match out {
            Some(path) => github_path(url@) == Some(path@),
            None => github_path(url@) is None,
        },
{
    match find_path_behind(url, "git@github.com:") {
        Some(path) => Some(path),
        None => match find_path_behind(url, "https://github.com/") {
            Some(path) => Some(path),
            None => find_path_behind(url, "ssh://git@github.com/"),
        },
    }
}

/// The namespace and the name of the repository that a URL of GitHub names, in any of the forms
/// `git@github.com:owner/repo.git`, `https://github.com/owner/repo.git` and
/// `ssh://git@github.com/owner/repo.git`.
pub fn parse_github_url(url: &str) -> (out: Result<(String, String), String>)
    ensures
        match out {
            Ok(parts) => github_repo(url@) == Some(parts.deep_view()),
            Err(msg) => github_repo(url@) is None && msg@ == "Cannot parse GitHub URL: "@ + url@,
        },
{
    let chars = text::chars_of(url);
    if let Some(path) = find_github_path(chars.as_slice()) {
        if let Some((namespace, name)) = text::split_once(path, '/') {
            return Ok((text::text_of(namespace), text::text_of(name)));
        }
    }
    let mut msg = "Cannot parse GitHub URL: ".to_owned();
    msg.append(url);
    Err(msg)
}

/// The URL by which Nix fetches `path` of GitHub at `branch`.
pub open spec fn nix_ssh_url(path: Seq<char>, branch: Seq<char>) -> Seq<char> {
    "git+ssh://git@github.com/"@ + path + "?ref="@ + branch
}

/// The URL by which Nix fetches a remote of GitHub at `branch`.
pub fn convert_to_nix_ssh_url(remote_url: &str, branch: &str) -> (out: Result<String, String>)
    ensures
        match out {
            Ok(url) => github_path(remote_url@) matches Some(path) && url@ == nix_ssh_url(
                path,
                branch@,
            ),
            Err(msg) => github_path(remote_url@) is None && msg@
                == "Unsupported remote URL format: "@ + remote_url@,
        },
{
    let chars = text::chars_of(remote_url);
    match find_github_path(chars.as_slice()) {
        Some(path) => {
            let mut out = "git+ssh://git@github.com/".to_owned();
            out.append(text::text_of(path).as_str());
            out.append("?ref=");
            out.append(branch);
            Ok(out)
        },
        None => {
            let mut msg = "Unsupported remote URL format: ".to_owned();
            msg.append(remote_url);
            Err(msg)
        },
    }
}

/// The URL of a repository on disk, as Nix takes it; at a branch where one is given.
pub open spec fn nix_file_url(path: Seq<char>, branch: Option<Seq<char>>) -> Seq<char> {
    "git+file://"@ + path + match branch {
        Some(b) => "?ref="@ + b,
        None => seq![],
    }
}

/// The URL of the repository at `path`, as Nix takes it.
pub fn nix_local_url(path: &str, branch: Option<&str>) -> (out: String)
    ensures
        out@ == nix_file_url(
            path@,
            match branch {
                Some(b) => Some(b@),
                None => None,
            },
        ),
{
    let mut out = "git+file://".to_owned();
    out.append(path);
    match branch {
        Some(b) => {
            let mut at = "?ref=".to_owned();
            at.append(b);
            out.append(at.as_str());
        },
        None => {
            assert(out@ + seq![] =~= out@);
        },
    }
    out
}

/// The URL by which Nix fetches a repository at `branch`, from what `jj git remote list` printed
/// in it (`None` where that failed).
pub fn cmd_nix_remote(stdout: Option<&[u8]>, branch: &str) -> (out: Result<String, String>)
    ensures
        match (origin_of(stdout), out) {
            (Err(reason), Err(msg)) => msg@ == reason,
            (Ok(url), Ok(nix)) => github_path(url) matches Some(path) && nix@ == nix_ssh_url(
                path,
                branch@,
            ),
            (Ok(url), Err(msg)) => github_path(url) is None && msg@
                == "Unsupported remote URL format: "@ + url,
            (Err(_), Ok(_)) => false,
        },
{
    match get_remote_url(stdout) {
        Ok(url) => convert_to_nix_ssh_url(url.as_str(), branch),
        Err(msg) => Err(msg),
    }
}

/// The namespace and the name of the source repository that a workspace belongs to, from what
/// `jj git remote list` printed in it (`None` where that failed).
pub fn cmd_nix_local(stdout: Option<&[u8]>) -> (out: Result<(String, String), String>)
    ensures
        match (origin_of(stdout), out) {
            (Err(reason), Err(msg)) => msg@ == reason,
            (Ok(url), Ok(parts)) => github_repo(url) == Some(parts.deep_view()),
            (Ok(url), Err(msg)) => github_repo(url) is None && msg@ == "Cannot parse GitHub URL: "@
                + url,
            (Err(_), Ok(_)) => false,
        },
{
    match get_remote_url(stdout) {
        Ok(url) => parse_github_url(url.as_str()),
        Err(msg) => Err(msg),
    }
}

/// Which repository on disk Nix is to take for a directory of a workspace.
#[derive(Debug)]
pub enum LocalFlake {
    /// The one in the directory.
    Own,
    /// The source repository with this namespace and name, at the branch.
    Source(String, String),
}

/// Which repository on disk Nix is to take: the directory itself where it has a `.git`, else the
/// source repository that the list of remotes leads to (`stdout` as for `cmd_nix_local`).
pub fn local_flake(has_git: bool, stdout: Option<&[u8]>) -> (out: Result<LocalFlake, String>)
    ensures
        match out {
            Ok(LocalFlake::Own) => has_git,
            Ok(LocalFlake::Source(namespace, name)) => !has_git && (origin_of(stdout) matches Ok(url)
                && github_repo(url) == Some((namespace@, name@))),
            Err(msg) => !has_git && match origin_of(stdout) {
                Ok(url) => github_repo(url) is None && msg@ == "Cannot parse GitHub URL: "@ + url,
                Err(reason) => msg@ == reason,
            },
        },
{
    if has_git {
        return Ok(LocalFlake::Own);
    }
    match cmd_nix_local(stdout) {
        Ok((namespace, name)) => Ok(LocalFlake::Source(namespace, name)),
        Err(msg) => Err(msg),
    }
}

/// The URL that Nix is given for a directory of a workspace on `branch`: that of the repository
/// that `flake` says, which stands at `path` and, with all links followed, at `resolved`. A source
/// repository has to be there (`exists`); `workspace` is the directory that is meant. The
/// directory's own repository is named without a branch, a source repository at `branch`.
pub fn local_flake_url(
    flake: &LocalFlake,
    exists: bool,
    path: &str,
    resolved: &str,
    workspace: &str,
    branch: &str,
) -> (out: Result<String, String>)
    ensures
        match *flake {
            LocalFlake::Own => out matches Ok(url) && url@ == nix_file_url(resolved@, None),
            LocalFlake::Source(_, _) => match out {
                Ok(url) => exists && url@ == nix_file_url(resolved@, Some(branch@)),
                Err(msg) => !exists && msg@ == "Source repo not found at "@ + path@
                    + " (expected for workspace "@ + workspace@ + ")"@,
            },
        },
{
    match flake {
        LocalFlake::Own => Ok(nix_local_url(resolved, None)),
        LocalFlake::Source(_, _) => {
            if exists {
                return Ok(nix_local_url(resolved, Some(branch)));
            }
            let mut msg = "Source repo not found at ".to_owned();
            msg.append(path);
            msg.append(" (expected for workspace ");
            msg.append(workspace);
            msg.append(")");
            Err(msg)
        },
    }
}

/// The URL from which a repository is cloned.
pub open spec fn clone_url(namespace: Seq<char>, repo: Seq<char>) -> Seq<char> {
    "git@github.com:"@ + namespace + "/"@ + repo + ".git"@
}

/// The URL from which the repository is cloned.
pub fn ssh_url(namespace: &str, repo: &str) -> (out: String)
    ensures
        out@ == clone_url(namespace@, repo@),
{
    let mut out = "git@github.com:".to_owned();
    out.append(namespace);
    out.append("/");
    out.append(repo);
    out.append(".git");
    out
}

/// The URL that a repository is cloned from leads back to its namespace and name, unless there is
/// a slash in the namespace.
pub proof fn law_clone_url_is_read_back(namespace: Seq<char>, repo: Seq<char>)
    requires
        !namespace.contains('/'),
    ensures
        github_repo(clone_url(namespace, repo)) == Some((namespace, repo)),
{
    let url = clone_url(namespace, repo);
    let prefix = "git@github.com:"@;
    let path = namespace + "/"@ + repo;
    reveal_strlit("/");
    assert("/"@ =~= seq!['/']);
    assert(prefix.is_prefix_of(url)) by {
        assert(url.subrange(0, prefix.len() as int) =~= prefix);
    }
    let rest = url.skip(prefix.len() as int);
    assert(rest =~= path + ".git"@);
    assert(".git"@.is_suffix_of(rest)) by {
        assert(rest.subrange(path.len() as int, rest.len() as int) =~= ".git"@);
    }
    assert(rest.take(rest.len() - ".git"@.len()) =~= path);
    assert(github_path(url) == Some(path));
    text::lemma_cut_joined(namespace, repo, '/');
}

/// Where a remote names a repository on GitHub, Nix is given the URL of that repository.
pub proof fn law_nix_url_names_the_repo(url: Seq<char>, branch: Seq<char>)
    requires
        github_repo(url) is Some,
    ensures
        github_path(url) is Some,
        match github_repo(url) {
            Some((ns, name)) => nix_ssh_url(github_path(url)->0, branch)
                == "git+ssh://git@github.com/"@ + (ns + "/"@ + name) + "?ref="@ + branch,
            None => true,
        },
{
    let path = github_path(url)->0;
    let (ns, name) = github_repo(url)->0;
    text::lemma_first_at(path, '/');
    reveal_strlit("/");
    assert("/"@ =~= seq!['/']);
    assert(path =~= ns + "/"@ + name);
}

// ---------------------------------------------------------------------------------------------
// Bookmarks

/// Whether one of the lines starts with `name`.
pub open spec fn some_line_starts(lines: Seq<Seq<char>>, name: Seq<char>) -> bool {
    exists|i: int| 0 <= i < lines.len() && name.is_prefix_of(#[trigger] lines[i])
}

/// Whether one of the lines holds `name`.
pub open spec fn some_line_holds(lines: Seq<Seq<char>>, name: Seq<char>) -> bool {
    exists|i: int| 0 <= i < lines.len() && text::occurs(#[trigger] lines[i], name)
}

/// What a failed command printed does not count.
pub open spec fn printed(stdout: Option<&[u8]>) -> Seq<Seq<char>> {
    match stdout {
        Some(bytes) => text::line_list(text::utf8_lossy(bytes@)),
        None => seq![],
    }
}

/// Whether the list of bookmarks has one that starts with `name`.
pub fn lists_local(list: &str, name: &str) -> (b: bool)
    ensures
        b == some_line_starts(text::line_list(list@), name@),
{
    let chars = text::chars_of(list);
    let prefix = text::chars_of(name);
    let lines = text::lines(chars.as_slice());
    let ghost all = text::views(lines@);
    let mut i: usize = 0;
    while i < lines.len()
        invariant
            i <= lines.len(),
            all == text::views(lines@),
            prefix@ == name@,
            all == text::line_list(list@),
            forall|j: int| 0 <= j < i ==> !name@.is_prefix_of(#[trigger] all[j]),
        decreases lines.len() - i,
    {
        assert(all[i as int] == lines@[i as int]@);
        if text::starts_with(lines[i], prefix.as_slice()) {
            return true;
        }
        i += 1;
    }
    false
}

/// Whether the list of bookmarks has `name` at `origin`.
pub fn lists_remote(list: &str, name: &str) -> (b: bool)
    ensures
        b == some_line_holds(text::line_list(list@), name@ + "@origin"@),
{
    let chars = text::chars_of(list);
    let mut marker = name.to_owned();
    marker.append("@origin");
    let m = text::chars_of(marker.as_str());
    let lines = text::lines(chars.as_slice());
    let ghost all = text::views(lines@);
    let mut i: usize = 0;
    while i < lines.len()
        invariant
            i <= lines.len(),
            all == text::views(lines@),
            m@ == name@ + "@origin"@,
            all == text::line_list(list@),
            forall|j: int| 0 <= j < i ==> !text::occurs(#[trigger] all[j], name@ + "@origin"@),
        decreases lines.len() - i,
    {
        assert(all[i as int] == lines@[i as int]@);
        if text::contains(lines[i], m.as_slice()) {
            return true;
        }
        i += 1;
    }
    false
}

/// Whether a bookmark exists here, from what `jj bookmark list` printed (`None` where it failed):
/// some line starts with its name.
pub fn bookmark_exists_local(stdout: Option<&[u8]>, name: &str) -> (b: bool)
    ensures
        b == some_line_starts(printed(stdout), name@),
{
    match stdout {
        Some(bytes) => lists_local(text::from_utf8_lossy(bytes).as_str(), name),
        None => false,
    }
}

/// Whether a bookmark exists at `origin`, from what `jj bookmark list --all-remotes` printed
/// (`None` where it failed): some line holds its name there.
pub fn bookmark_exists_remote(stdout: Option<&[u8]>, name: &str) -> (b: bool)
    ensures
        b == some_line_holds(printed(stdout), name@ + "@origin"@),
{
    match stdout {
        Some(bytes) => lists_remote(text::from_utf8_lossy(bytes).as_str(), name),
        None => false,
    }
}

/// The arguments that ask jj for the bookmark `name`.
pub fn local_bookmark_args(name: &str) -> (out: Vec<String>)
    ensures
        out.deep_view() == seq!["bookmark"@, "list"@, name@],
{
    let out = vec!["bookmark".to_owned(), "list".to_owned(), name.to_owned()];
    assert(out.deep_view() =~= seq!["bookmark"@, "list"@, name@]);
    out
}

/// The arguments that ask jj for the bookmark `name`, here and at the remotes.
pub fn remote_bookmark_args(name: &str) -> (out: Vec<String>)
    ensures
        out.deep_view() == seq!["bookmark"@, "list"@, "--all-remotes"@, name@],
{
    let out = vec![
        "bookmark".to_owned(),
        "list".to_owned(),
        "--all-remotes".to_owned(),
        name.to_owned(),
    ];
    assert(out.deep_view() =~= seq!["bookmark"@, "list"@, "--all-remotes"@, name@]);
    out
}

/// The name of the workspace for a branch.
pub open spec fn workspace_name(branch: Seq<char>) -> Seq<char> {
    Seq::new(
        branch.len(),
        |i: int|
            if branch[i] == '/' {
                '_'
            } else {
                branch[i]
            },
    )
}

/// A branch's name with underscores in place of the slashes, as jj takes it for a workspace.
pub fn sanitize_workspace_name(branch_name: &str) -> (out: String)
    ensures
        out@ == workspace_name(branch_name@),
{
    let chars = text::chars_of(branch_name);
    let mut out = String::new();
    let mut i: usize = 0;
    while i < chars.len()
        invariant
            i <= chars.len(),
            chars@ == branch_name@,
            out@ =~= workspace_name(branch_name@).take(i as int),
        decreases chars.len() - i,
    {
        let c: char = chars[i];
        out.push(
            if c == '/' {
                '_'
            } else {
                c
            },
        );
        i += 1;
    }
    assert(workspace_name(branch_name@).take(i as int) =~= workspace_name(branch_name@));
    out
}

/// The name of a workspace holds no slash.
pub proof fn law_workspace_name_has_no_slash(branch: Seq<char>)
    ensures
        !workspace_name(branch).contains('/'),
{
}

/// A line that starts with the name shows that the bookmark exists, wherever it stands in the list;
/// where no line does, the bookmark does not exist.
pub proof fn law_local_bookmark(lines: Seq<Seq<char>>, name: Seq<char>)
    ensures
        forall|i: int, rest: Seq<char>|
            0 <= i < lines.len() && #[trigger] lines[i] == #[trigger] (name + rest)
                ==> some_line_starts(lines, name),
        (forall|i: int|
            0 <= i < lines.len() ==> (#[trigger] lines[i]).len() < name.len() || lines[i].take(
                name.len() as int,
            ) != name) ==> !some_line_starts(lines, name),
{
    assert forall|i: int, rest: Seq<char>|
        0 <= i < lines.len() && #[trigger] lines[i] == #[trigger] (name + rest) implies some_line_starts(
        lines,
        name,
    ) by {
        text::law_prefix_and_suffix(lines[i], name, rest);
        assert(name.is_prefix_of(lines[i]));
    }
    if some_line_starts(lines, name) {
        let i = choose|i: int| 0 <= i < lines.len() && name.is_prefix_of(#[trigger] lines[i]);
        assert(lines[i].take(name.len() as int) =~= name);
    }
}

/// Lines before or behind a list never make a bookmark disappear, nor appear unless one of them
/// starts with its name; and the order of the lines does not matter.
pub proof fn law_local_bookmark_in_parts(a: Seq<Seq<char>>, b: Seq<Seq<char>>, name: Seq<char>)
    ensures
        some_line_starts(a + b, name) <==> some_line_starts(a, name) || some_line_starts(b, name),
        some_line_starts(a + b, name) <==> some_line_starts(b + a, name),
{
    lemma_local_in_parts(a, b, name);
    lemma_local_in_parts(b, a, name);
}

proof fn lemma_local_in_parts(a: Seq<Seq<char>>, b: Seq<Seq<char>>, name: Seq<char>)
    ensures
        some_line_starts(a + b, name) <==> some_line_starts(a, name) || some_line_starts(b, name),
{
    let all = a + b;
    if some_line_starts(a, name) {
        let i = choose|i: int| 0 <= i < a.len() && name.is_prefix_of(#[trigger] a[i]);
        assert(all[i] == a[i]);
    }
    if some_line_starts(b, name) {
        let i = choose|i: int| 0 <= i < b.len() && name.is_prefix_of(#[trigger] b[i]);
        assert(all[a.len() + i] == b[i]);
    }
    if some_line_starts(all, name) {
        let i = choose|i: int| 0 <= i < all.len() && name.is_prefix_of(#[trigger] all[i]);
        if i < a.len() {
            assert(name.is_prefix_of(a[i]));
        } else {
            assert(name.is_prefix_of(b[i - a.len()]));
        }
    }
}

/// A bookmark that is known by a longer name is known by every beginning of it.
pub proof fn law_local_bookmark_beginning(
    lines: Seq<Seq<char>>,
    name: Seq<char>,
    more: Seq<char>,
)
    requires
        some_line_starts(lines, name + more),
    ensures
        some_line_starts(lines, name),
{
    let i = choose|i: int| 0 <= i < lines.len() && (name + more).is_prefix_of(#[trigger] lines[i]);
    assert(lines[i].take(name.len() as int) =~= (name + more).take(name.len() as int));
    assert((name + more).take(name.len() as int) =~= name);
    assert(name.is_prefix_of(lines[i]));
}

/// A line that holds the marker shows that the bookmark exists at the remote, wherever the line
/// stands in the list and the marker in the line; where no line does, the bookmark does not exist.
pub proof fn law_remote_bookmark(lines: Seq<Seq<char>>, marker: Seq<char>)
    ensures
        forall|i: int, a: Seq<char>, b: Seq<char>|
            0 <= i < lines.len() && #[trigger] lines[i] == #[trigger] (a + marker + b)
                ==> some_line_holds(lines, marker),
        (forall|i: int, k: int|
            0 <= i < lines.len() && 0 <= k && k + marker.len() <= lines[i].len()
                ==> #[trigger] lines[i].subrange(k, k + marker.len()) != marker)
            ==> !some_line_holds(lines, marker),
{
    assert forall|i: int, a: Seq<char>, b: Seq<char>|
        0 <= i < lines.len() && #[trigger] lines[i] == #[trigger] (a + marker + b) implies
        some_line_holds(lines, marker) by {
        text::law_occurs(lines[i], marker);
        assert(text::occurs(lines[i], marker));
    }
    if some_line_holds(lines, marker) {
        let i = choose|i: int| 0 <= i < lines.len() && text::occurs(#[trigger] lines[i], marker);
        let l = lines[i];
        let k = choose|k: int| 0 <= k <= l.len() && #[trigger] marker.is_prefix_of(l.skip(k));
        assert(l.subrange(k, k + marker.len()) =~= l.skip(k).take(marker.len() as int));
        assert(l.skip(k).take(marker.len() as int) =~= marker);
        assert(lines[i].subrange(k, k + marker.len()) == marker);
    }
}

/// Lines before or behind a list never make a bookmark at a remote disappear, nor appear unless one
/// of them holds the marker.
pub proof fn law_remote_bookmark_in_parts(a: Seq<Seq<char>>, b: Seq<Seq<char>>, marker: Seq<char>)
    ensures
        some_line_holds(a + b, marker) <==> some_line_holds(a, marker) || some_line_holds(b, marker),
{
    let all = a + b;
    if some_line_holds(a, marker) {
        let i = choose|i: int| 0 <= i < a.len() && text::occurs(#[trigger] a[i], marker);
        assert(all[i] == a[i]);
    }
    if some_line_holds(b, marker) {
        let i = choose|i: int| 0 <= i < b.len() && text::occurs(#[trigger] b[i], marker);
        assert(all[a.len() + i] == b[i]);
    }
    if some_line_holds(all, marker) {
        let i = choose|i: int| 0 <= i < all.len() && text::occurs(#[trigger] all[i], marker);
        if i < a.len() {
            assert(text::occurs(a[i], marker));
        } else {
            assert(text::occurs(b[i - a.len()], marker));
        }
    }
}

/// Every line that jj printed counts, and nothing that a failed command printed.
pub proof fn law_printed(stdout: Option<&[u8]>, lines: Seq<Seq<char>>)
    requires
        match stdout {
            Some(bytes) => text::utf8_lossy(bytes@) == text::terminated(lines),
            None => lines.len() == 0,
        },
        forall|i: int|
            0 <= i < lines.len() ==> !(#[trigger] lines[i]).contains('\n') && !(lines[i].len() > 0
                && lines[i].last() == '\r'),
    ensures
        printed(stdout) == lines,
{
    match stdout {
        Some(_) => {
            text::law_lines_are_read_back(lines);
        },
        None => {
            assert(printed(stdout) =~= lines);
        },
    }
}

/// The URL of `origin` is what stands on the first line of that name behind the first white space,
/// without the white space around it.
pub proof fn law_first_origin(
    before: Seq<Seq<char>>,
    space: char,
    url: Seq<char>,
    behind: Seq<Seq<char>>,
)
    requires
        text::is_white(space),
        forall|i: int|
            0 <= i < before.len() ==> !"origin"@.is_prefix_of(#[trigger] before[i])
                || before[i].len() == "origin"@.len() || !text::is_white(
                before[i]["origin"@.len() as int],
            ),
    ensures
        origin_in(before + seq!["origin"@ + seq![space] + url] + behind) == Some(
            text::trimmed(url),
        ),
        origin_in(before) is None,
    decreases before.len(),
{
    let line = "origin"@ + seq![space] + url;
    let all = before + seq![line] + behind;
    if before.len() == 0 {
        assert(all[0] == line);
        lemma_named_line(line, url, space);
    } else {
        let t = before.drop_first();
        assert forall|i: int| 0 <= i < t.len() implies !"origin"@.is_prefix_of(#[trigger] t[i])
            || t[i].len() == "origin"@.len() || !text::is_white(t[i]["origin"@.len() as int]) by {
            assert(t[i] == before[i + 1]);
        }
        law_first_origin(t, space, url, behind);
        assert(all.drop_first() =~= t + seq![line] + behind);
        assert(all[0] == before[0]);
        lemma_other_line(before[0]);
    }
}

proof fn lemma_named_line(line: Seq<char>, url: Seq<char>, space: char)
    requires
        line == "origin"@ + seq![space] + url,
        text::is_white(space),
    ensures
        text::cut_white(line) == Some(("origin"@, url)),
{
    let p = text::no_white_space();
    let n = "origin"@.len() as int;
    assert forall|j: int| 0 <= j < n implies p(#[trigger] line[j]) by {
        reveal_strlit("origin");
        assert(line[j] == "origin"@[j]);
    }
    assert(line[n] == space);
    text::lemma_head_run(line, p, n);
    assert(line.take(n) =~= "origin"@);
    assert(line.skip(n + 1) =~= url);
}

proof fn lemma_other_line(line: Seq<char>)
    requires
        !"origin"@.is_prefix_of(line) || line.len() == "origin"@.len() || !text::is_white(
            line["origin"@.len() as int],
        ),
    ensures
        match text::cut_white(line) {
            Some((name, _)) => name != "origin"@,
            None => true,
        },
{
    text::law_cut_white(line);
    match text::cut_white(line) {
        Some((name, _)) => {
            if name == "origin"@ {
                assert(line.take("origin"@.len() as int) =~= "origin"@);
                assert("origin"@.is_prefix_of(line));
            }
        },
        None => {},
    }
}

/// The three forms of a URL lead to the path, with `.git` at the end or without.
pub proof fn law_github_path(prefix: Seq<char>, path: Seq<char>)
    requires
        prefix == "git@github.com:"@ || prefix == "https://github.com/"@ || prefix
            == "ssh://git@github.com/"@,
    ensures
        github_path(prefix + path + ".git"@) == Some(path),
        !".git"@.is_suffix_of(path) ==> github_path(prefix + path) == Some(path),
{
    lemma_path_behind(prefix, path);
    let with = prefix + path + ".git"@;
    let without = prefix + path;
    lemma_forms_differ(prefix, path + ".git"@);
    assert(prefix + (path + ".git"@) =~= with);
    lemma_forms_differ(prefix, path);
}

proof fn lemma_path_behind(prefix: Seq<char>, path: Seq<char>)
    ensures
        path_behind(prefix + path + ".git"@, prefix) == Some(path),
        !".git"@.is_suffix_of(path) ==> path_behind(prefix + path, prefix) == Some(path),
{
    let dot = path + ".git"@;
    assert(prefix + path + ".git"@ =~= prefix + dot);
    text::law_prefix_and_suffix(prefix + dot, prefix, dot);
    text::law_prefix_and_suffix(dot, ".git"@, path);
    text::law_prefix_and_suffix(prefix + path, prefix, path);
}

/// A URL has at most one of the three forms.
proof fn lemma_forms_differ(prefix: Seq<char>, rest: Seq<char>)
    requires
        prefix == "git@github.com:"@ || prefix == "https://github.com/"@ || prefix
            == "ssh://git@github.com/"@,
    ensures
        prefix != "git@github.com:"@ ==> !"git@github.com:"@.is_prefix_of(prefix + rest),
        prefix != "https://github.com/"@ ==> !"https://github.com/"@.is_prefix_of(prefix + rest),
        prefix != "ssh://git@github.com/"@ ==> !"ssh://git@github.com/"@.is_prefix_of(
            prefix + rest,
        ),
{
    reveal_strlit("git@github.com:");
    reveal_strlit("https://github.com/");
    reveal_strlit("ssh://git@github.com/");
    let url = prefix + rest;
    assert(url[0] == prefix[0]);
    if "git@github.com:"@.is_prefix_of(url) {
        assert("git@github.com:"@[0] == url[0]);
    }
    if "https://github.com/"@.is_prefix_of(url) {
        assert("https://github.com/"@[0] == url[0]);
    }
    if "ssh://git@github.com/"@.is_prefix_of(url) {
        assert("ssh://git@github.com/"@[0] == url[0]);
    }
}

/// A URL that leads to a path has one of the three forms.
pub proof fn law_no_other_form(url: Seq<char>)
    requires
        github_path(url) is Some,
    ensures
        exists|prefix: Seq<char>|
            (prefix == "git@github.com:"@ || prefix == "https://github.com/"@ || prefix
                == "ssh://git@github.com/"@) && (url == #[trigger] (prefix + github_path(url)->0)
                || url == prefix + github_path(url)->0 + ".git"@),
{
    let path = github_path(url)->0;
    let prefix = if "git@github.com:"@.is_prefix_of(url) {
        "git@github.com:"@
    } else if "https://github.com/"@.is_prefix_of(url) {
        "https://github.com/"@
    } else {
        "ssh://git@github.com/"@
    };
    let rest = url.skip(prefix.len() as int);
    assert(path_behind(url, prefix) == Some(path));
    assert(url =~= prefix + rest);
    if ".git"@.is_suffix_of(rest) {
        assert(rest =~= path + ".git"@);
        assert(prefix + path + ".git"@ =~= url);
    }
}

/// A repository's namespace and name are its path in two, at the first slash; a path without a
/// slash names no repository.
pub proof fn law_github_repo(prefix: Seq<char>, namespace: Seq<char>, name: Seq<char>)
    requires
        prefix == "git@github.com:"@ || prefix == "https://github.com/"@ || prefix
            == "ssh://git@github.com/"@,
        !namespace.contains('/'),
    ensures
        github_repo(prefix + (namespace + seq!['/'] + name) + ".git"@) == Some((namespace, name)),
        !".git"@.is_suffix_of(namespace + seq!['/'] + name) ==> github_repo(
            prefix + (namespace + seq!['/'] + name),
        ) == Some((namespace, name)),
        github_repo(prefix + namespace + ".git"@) is None,
{
    law_github_path(prefix, namespace + seq!['/'] + name);
    law_github_path(prefix, namespace);
    text::lemma_cut_joined(namespace, name, '/');
    text::lemma_one_piece(namespace, '/');
}

/// The name of a workspace is its branch's, character by character, but for the slashes, for which
/// underscores stand.
pub proof fn law_workspace_name(branch: Seq<char>)
    ensures
        workspace_name(branch).len() == branch.len(),
        forall|i: int|
            0 <= i < branch.len() && branch[i] != '/' ==> #[trigger] workspace_name(branch)[i]
                == branch[i],
        forall|i: int|
            0 <= i < branch.len() && branch[i] == '/' ==> #[trigger] workspace_name(branch)[i]
                == '_',
        !branch.contains('/') ==> workspace_name(branch) == branch,
{
    if !branch.contains('/') {
        assert(workspace_name(branch) =~= branch);
    }
}

/// The URL of a repository on disk at a branch is the URL without one, and the branch behind it;
/// the URL ends in the path where there is no branch.
pub proof fn law_nix_file_url(path: Seq<char>, branch: Seq<char>)
    ensures
        nix_file_url(path, None) == "git+file://"@ + path,
        nix_file_url(path, Some(branch)) == nix_file_url(path, None) + ("?ref="@ + branch),
{
    assert(nix_file_url(path, None) =~= "git+file://"@ + path);
    assert(nix_file_url(path, Some(branch)) =~= "git+file://"@ + path + ("?ref="@ + branch));
}

/// The URL that Nix is given is the same for all forms of a remote's URL.
pub proof fn law_nix_url_of_any_form(
    a: Seq<char>,
    b: Seq<char>,
    path: Seq<char>,
    branch: Seq<char>,
)
    requires
        a == "git@github.com:"@ || a == "https://github.com/"@ || a == "ssh://git@github.com/"@,
        b == "git@github.com:"@ || b == "https://github.com/"@ || b == "ssh://git@github.com/"@,
        !".git"@.is_suffix_of(path),
    ensures
        github_path(a + path) == github_path(b + path + ".git"@),
        nix_ssh_url(github_path(a + path)->0, branch) == "git+ssh://git@github.com/"@ + path
            + "?ref="@ + branch,
{
    law_github_path(a, path);
    law_github_path(b, path);
}

/// Why there is no URL: the command failed, or it listed no `origin`; otherwise the URL is the one
/// that it listed.
pub proof fn law_origin_of(stdout: Option<&[u8]>)
    ensures
        stdout is None ==> origin_of(stdout) == Err::<Seq<char>, Seq<char>>(
            "jj git remote list failed"@,
        ),
        stdout matches Some(bytes) ==> {
            let lines = text::line_list(text::utf8_lossy(bytes@));
            &&& origin_in(lines) is None ==> origin_of(stdout) == Err::<Seq<char>, Seq<char>>(
                "No 'origin' remote found"@,
            )
            &&& origin_in(lines) is Some ==> origin_of(stdout) == Ok::<Seq<char>, Seq<char>>(
                origin_in(lines)->0,
            )
        },
{
}

} // verus!
