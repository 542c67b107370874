//! The pages of the site, as HTML.
use vstd::prelude::*;

use crate::discovery;
use crate::discovery::SourceRepo;
use crate::discovery::SourceRepoView;
use crate::escape;
use crate::focus;
use crate::gh;
use crate::gh::PrInfoView;
use crate::gh::PrMap;
use crate::gh::PrState;
use crate::jj::LogLine;
use crate::jj::LogLineView;
use crate::log_view;
use crate::log_view::CommitTags;
use crate::log_view::Tags;
use crate::log_view::WorkspaceLogs;
use crate::log_view::WorkspaceLogsView;
use crate::markdown;
use crate::page;
use crate::page::LastSync;
use crate::page::Section;
use crate::template;
use crate::text;

verus! {

/// What `{:?}` makes of a text: the text in double quotes, with what cannot be printed escaped.
pub uninterp spec fn debug_quoted(s: Seq<char>) -> Seq<char>;

/// `format!` with `{:?}` on a text. The result depends on the text alone; which characters are
/// escaped, and how, is left to the name.
#[verifier::external_body]
fn quoted(s: &str) -> (out: String)
    ensures
        out@ == debug_quoted(s@),
{
    format!("{s:?}")
}

// ---------------------------------------------------------------------------------------------
// Workspaces

/// One repository of a workspace.
pub open spec fn repo_html(
    name: Seq<char>,
    lines: Seq<LogLineView>,
    tags: Tags,
    hide: Option<Seq<char>>,
) -> Seq<char> {
    "<div class=\"repo\">\n<h3>"@ + escape::escaped(name) + "</h3>\n"@ + (if lines.len() == 0 {
        "<p class=\"empty\">no commits ahead of trunk</p>\n"@
    } else {
        "<div class=\"stack\">\n"@ + page::rows_html(lines, tags, hide) + "</div>\n"@
    }) + "</div>\n"@
}

/// Several repositories of a workspace.
pub open spec fn repos_html(
    repos: Seq<(Seq<char>, Seq<LogLineView>)>,
    tags: Tags,
    hide: Option<Seq<char>>,
) -> Seq<char>
    decreases repos.len(),
{
    if repos.len() == 0 {
        seq![]
    } else {
        repos_html(repos.drop_last(), tags, hide) + repo_html(
            repos.last().0,
            repos.last().1,
            tags,
            hide,
        )
    }
}

/// The ID of the hidden list in the section of a workspace on `branch`, at a place of the page.
pub open spec fn section_id(place: nat, branch: Seq<char>) -> Seq<char> {
    "md-ws-"@ + text::decimal(place) + "-"@ + escape::slug(branch)
}

/// The IDs of two sections at different places of a page differ, whatever their branches are.
pub proof fn law_section_ids_differ(i: nat, a: Seq<char>, j: nat, b: Seq<char>)
    requires
        i != j,
    ensures
        section_id(i, a) != section_id(j, b),
{
    if section_id(i, a) == section_id(j, b) {
        lemma_place_in_id(i, a);
        lemma_place_in_id(j, b);
        text::lemma_decimal(i);
        text::lemma_decimal(j);
    }
}

/// The place can be read off an ID.
proof fn lemma_place_in_id(place: nat, branch: Seq<char>)
    ensures
        text::cut(section_id(place, branch).skip("md-ws-"@.len() as int), '-') == Some(
            (text::decimal(place), escape::slug(branch)),
        ),
{
    let d = text::decimal(place);
    text::lemma_decimal(place);
    if d.contains('-') {
        let k = choose|k: int| 0 <= k < d.len() && d[k] == '-';
        assert('0' <= d[k] <= '9');
    }
    text::lemma_cut_joined(d, escape::slug(branch), '-');
    reveal_strlit("-");
    assert("-"@ =~= seq!['-']);
    assert(section_id(place, branch).skip("md-ws-"@.len() as int) =~= d + seq!['-']
        + escape::slug(branch));
}

/// The section of a workspace on `branch`, at a place of the page.
pub open spec fn workspace_html(
    place: nat,
    branch: Seq<char>,
    path: Seq<char>,
    repos: Seq<(Seq<char>, Seq<LogLineView>)>,
    tags: Tags,
    hide: Option<Seq<char>>,
) -> Seq<char> {
    "<section class=\"ws\">\n<h2><a href=\"/w/"@ + escape::path_escaped(
        vstd::utf8::encode_utf8(branch),
    ) + "\">"@ + escape::escaped(branch) + "</a></h2>\n<p class=\"sub\"><code>"@ + escape::escaped(
        path,
    ) + "</code></p>\n"@ + page::copy_html(
        section_id(place, branch),
        markdown::workspace_md(branch, repos),
    ) + (if repos.len() == 0 {
        "<p class=\"empty\">no jj repos</p>\n"@
    } else {
        repos_html(repos, tags, hide)
    }) + "</section>\n"@
}

fn render_repo(name: &str, lines: &Vec<LogLine>, tags: &CommitTags, hide: Option<&str>) -> (out:
    String)
    ensures
        out@ == repo_html(name@, lines.deep_view(), tags.deep_view(), page::opt_text(hide)),
{
    let mut out = "<div class=\"repo\">\n<h3>".to_owned();
    out.append(escape::html_escape(name).as_str());
    out.append("</h3>\n");
    if lines.len() == 0 {
        out.append("<p class=\"empty\">no commits ahead of trunk</p>\n");
    } else {
        let mut stack = "<div class=\"stack\">\n".to_owned();
        stack.append(page::render_log_lines(lines, tags, hide).as_str());
        stack.append("</div>\n");
        out.append(stack.as_str());
    }
    out.append("</div>\n");
    out
}

/// The section of a workspace: its branch, its path, the button that copies its pull requests,
/// and its repositories. `place` is to be the place of no other section of the page: it tells their
/// hidden lists apart.
pub fn render_workspace(
    place: usize,
    branch: &str,
    path: &str,
    repo_lines: &Vec<(String, Vec<LogLine>)>,
    tags: &CommitTags,
    hide_branch: Option<&str>,
) -> (out: String)
    ensures
        out@ == workspace_html(
            place as nat,
            branch@,
            path@,
            repo_lines.deep_view(),
            tags.deep_view(),
            page::opt_text(hide_branch),
        ),
{
    let ghost all = repo_lines.deep_view();
    let ghost tv = tags.deep_view();
    let ghost hv = page::opt_text(hide_branch);
    let mut repos = String::new();
    let mut i: usize = 0;
    while i < repo_lines.len()
        invariant
            i <= repo_lines.len(),
            all == repo_lines.deep_view(),
            tv == tags.deep_view(),
            hv == page::opt_text(hide_branch),
            repos@ == repos_html(all.take(i as int), tv, hv),
        decreases repo_lines.len() - i,
    {
        proof {
            assert(all.take(i + 1).drop_last() =~= all.take(i as int));
            assert(all.take(i + 1).last() == repo_lines@[i as int].deep_view());
        }
        let r = render_repo(repo_lines[i].0.as_str(), &repo_lines[i].1, tags, hide_branch);
        repos.append(r.as_str());
        i += 1;
    }
    assert(all.take(i as int) =~= all);
    let md = markdown::build_workspace_md(branch, repo_lines);
    let mut id = "md-ws-".to_owned();
    id.append(text::number_text(place as u64).as_str());
    id.append("-");
    id.append(escape::id_slug(branch).as_str());
    let mut out = "<section class=\"ws\">\n<h2><a href=\"/w/".to_owned();
    out.append(escape::url_path_escape(branch).as_str());
    out.append("\">");
    out.append(escape::html_escape(branch).as_str());
    out.append("</a></h2>\n<p class=\"sub\"><code>");
    out.append(escape::html_escape(path).as_str());
    out.append("</code></p>\n");
    out.append(page::render_copy_button(id.as_str(), md.as_str()).as_str());
    if repo_lines.len() == 0 {
        out.append("<p class=\"empty\">no jj repos</p>\n");
    } else {
        out.append(repos.as_str());
    }
    out.append("</section>\n");
    out
}

/// The section of a workspace on a page about workspaces, which links no other workspaces.
pub open spec fn section_html<P>(
    place: nat,
    w: WorkspaceLogsView<P>,
    map: Map<gh::PrKey, PrInfoView>,
) -> Seq<char> {
    workspace_html(
        place,
        w.ws.branch,
        w.path_text,
        log_view::ws_lines(w, map),
        seq![],
        Some(w.ws.branch),
    )
}

fn render_section<P>(place: usize, w: &WorkspaceLogs<P>, map: &PrMap) -> (out: String)
    requires
        map.wf(),
    ensures
        out@ == section_html(place as nat, w.deep_view(), map@),
{
    let repo_lines = log_view::fetch_ws_lines(w, map);
    let no_tags: CommitTags = Vec::new();
    assert(no_tags.deep_view() =~= seq![]);
    render_workspace(
        place,
        w.ws.branch.as_str(),
        w.path_text.as_str(),
        &repo_lines,
        &no_tags,
        Some(w.ws.branch.as_str()),
    )
}

/// How many workspaces have a repository that jj manages.
pub open spec fn jj_count<P>(workspaces: Seq<WorkspaceLogsView<P>>) -> nat
    decreases workspaces.len(),
{
    if workspaces.len() == 0 {
        0
    } else {
        jj_count(workspaces.drop_last()) + (if discovery::any_jj(workspaces.last().ws) {
            1nat
        } else {
            0nat
        })
    }
}

/// The sections of the workspaces that have a repository that jj manages, each at the place that
/// its workspace has among all.
pub open spec fn sections_html<P>(
    workspaces: Seq<WorkspaceLogsView<P>>,
    map: Map<gh::PrKey, PrInfoView>,
) -> Seq<char>
    decreases workspaces.len(),
{
    if workspaces.len() == 0 {
        seq![]
    } else {
        let before = sections_html(workspaces.drop_last(), map);
        if discovery::any_jj(workspaces.last().ws) {
            before + section_html((workspaces.len() - 1) as nat, workspaces.last(), map)
        } else {
            before
        }
    }
}

/// The ending of a word that counts `n` things.
pub open spec fn plural(n: nat) -> Seq<char> {
    if n == 1 {
        ""@
    } else {
        "s"@
    }
}

/// The page of all workspaces below `root`.
pub open spec fn index_html<P>(
    root: Seq<char>,
    workspaces: Seq<WorkspaceLogsView<P>>,
    map: Map<gh::PrKey, PrInfoView>,
    sync: LastSync,
) -> Seq<char> {
    let n = jj_count(workspaces);
    template::PAGE_HEAD@ + page::nav_html(Section::Workspaces, sync) + page::CONTROLS@
        + "<p class=\"sub\">root: <code>"@ + escape::escaped(root) + "</code> &middot; "@
        + text::decimal(n) + " workspace"@ + plural(n) + "</p>\n"@ + (if n == 0 {
        "<p>No jj workspaces found.</p>\n"@
    } else {
        ""@
    }) + sections_html(workspaces, map) + template::PAGE_TAIL@
}

/// The page of all workspaces below `root` that have a repository that jj manages.
pub fn render_index<P>(
    root: &str,
    workspaces: &Vec<WorkspaceLogs<P>>,
    map: &PrMap,
    sync: LastSync,
) -> (out: String)
    requires
        map.wf(),
    ensures
        out@ == index_html(root@, workspaces.deep_view(), map@, sync),
{
    let ghost all = workspaces.deep_view();
    let mut sections = String::new();
    let mut count: usize = 0;
    let mut i: usize = 0;
    while i < workspaces.len()
        invariant
            i <= workspaces.len(),
            all == workspaces.deep_view(),
            map.wf(),
            count <= i,
            count == jj_count(all.take(i as int)),
            sections@ == sections_html(all.take(i as int), map@),
        decreases workspaces.len() - i,
    {
        proof {
            assert(all.take(i + 1).drop_last() =~= all.take(i as int));
            assert(all.take(i + 1).last() == workspaces@[i as int].deep_view());
        }
        if discovery::has_any_jj(&workspaces[i].ws) {
            sections.append(render_section(i, &workspaces[i], map).as_str());
            count += 1;
        }
        i += 1;
    }
    assert(all.take(i as int) =~= all);
    let mut out = template::PAGE_HEAD.to_owned();
    out.append(page::render_nav(Section::Workspaces, sync).as_str());
    out.append(page::CONTROLS);
    out.append("<p class=\"sub\">root: <code>");
    out.append(escape::html_escape(root).as_str());
    out.append("</code> &middot; ");
    out.append(text::number_text(count as u64).as_str());
    out.append(" workspace");
    out.append(
        if count == 1 {
            ""
        } else {
            "s"
        },
    );
    out.append("</p>\n");
    out.append(
        if count == 0 {
            "<p>No jj workspaces found.</p>\n"
        } else {
            ""
        },
    );
    out.append(sections.as_str());
    out.append(template::PAGE_TAIL);
    out
}

/// Whether a workspace is the one that the page of `branch` shows.
pub open spec fn on_branch<P>(w: WorkspaceLogsView<P>, branch: Seq<char>) -> bool {
    w.ws.branch == branch && discovery::any_jj(w.ws)
}

/// Whether the page of `branch` shows the workspace at `i`: the first that is on it.
pub open spec fn first_on<P>(
    workspaces: Seq<WorkspaceLogsView<P>>,
    branch: Seq<char>,
    i: int,
) -> bool {
    &&& 0 <= i < workspaces.len()
    &&& on_branch(workspaces[i], branch)
    &&& forall|j: int| 0 <= j < i ==> !on_branch(#[trigger] workspaces[j], branch)
}

/// Which workspace the page of `branch` shows.
pub fn find_workspace<P>(workspaces: &Vec<WorkspaceLogs<P>>, branch: &str) -> (out: Option<usize>)
    ensures
        match out {
            Some(i) => first_on(workspaces.deep_view(), branch@, i as int),
            None => forall|j: int|
                0 <= j < workspaces.len() ==> !on_branch(
                    #[trigger] workspaces.deep_view()[j],
                    branch@,
                ),
        },
{
    let ghost all = workspaces.deep_view();
    let mut i: usize = 0;
    while i < workspaces.len()
        invariant
            i <= workspaces.len(),
            all == workspaces.deep_view(),
            forall|j: int| 0 <= j < i ==> !on_branch(#[trigger] all[j], branch@),
        decreases workspaces.len() - i,
    {
        assert(all[i as int] == workspaces@[i as int].deep_view());
        let ws = &workspaces[i].ws;
        if text::same_text(ws.branch.as_str(), branch) && discovery::has_any_jj(ws) {
            return Some(i);
        }
        i += 1;
    }
    None
}

/// The page of one workspace.
pub open spec fn one_html<P>(
    w: WorkspaceLogsView<P>,
    map: Map<gh::PrKey, PrInfoView>,
    sync: LastSync,
) -> Seq<char> {
    template::PAGE_HEAD@ + page::nav_html(Section::Workspaces, sync) + page::CONTROLS@
        + "<p class=\"sub\"><a href=\"/\">&larr; all workspaces</a></p>\n"@ + section_html(
        0,
        w,
        map,
    ) + template::PAGE_TAIL@
}

/// What is said of a branch that no workspace is on; `quoted_branch` is the branch in quotes.
pub fn no_such_workspace(quoted_branch: &str) -> (out: String)
    ensures
        out@ == "no jj workspace with branch "@ + quoted_branch@,
{
    let mut out = "no jj workspace with branch ".to_owned();
    out.append(quoted_branch);
    out
}

/// The page of the workspace on `branch`: the first one that has a repository that jj manages.
/// Where there is none, the error says so.
pub fn render_one<P>(
    branch: &str,
    workspaces: &Vec<WorkspaceLogs<P>>,
    map: &PrMap,
    sync: LastSync,
) -> (out: Result<String, String>)
    requires
        map.wf(),
    ensures
        match out {
            Ok(html) => exists|i: int| #[trigger]
                first_on(workspaces.deep_view(), branch@, i) && html@ == one_html(
                    workspaces.deep_view()[i],
                    map@,
                    sync,
                ),
            Err(msg) => msg@ == "no jj workspace with branch "@ + debug_quoted(branch@) && forall|
                j: int,
            |
                0 <= j < workspaces.len() ==> !on_branch(
                    #[trigger] workspaces.deep_view()[j],
                    branch@,
                ),
        },
{
    match find_workspace(workspaces, branch) {
        None => Err(no_such_workspace(quoted(branch).as_str())),
        Some(i) => {
            assert(workspaces.deep_view()[i as int] == workspaces@[i as int].deep_view());
            let mut out = template::PAGE_HEAD.to_owned();
            out.append(page::render_nav(Section::Workspaces, sync).as_str());
            out.append(page::CONTROLS);
            out.append("<p class=\"sub\"><a href=\"/\">&larr; all workspaces</a></p>\n");
            out.append(render_section(0, &workspaces[i], map).as_str());
            out.append(template::PAGE_TAIL);
            assert(first_on(workspaces.deep_view(), branch@, i as int));
            Ok(out)
        },
    }
}

// ---------------------------------------------------------------------------------------------
// Sources

/// The heading of a namespace, where the source at `i` is the first of one.
pub open spec fn heading_html<P>(repos: Seq<SourceRepoView<P>>, i: int) -> Seq<char> {
    if i > 0 && repos[i - 1].namespace == repos[i].namespace {
        ""@
    } else {
        (if i > 0 {
            "</ul>\n"@
        } else {
            ""@
        }) + "<h2>"@ + escape::escaped(repos[i].namespace)
            + "</h2>\n<ul class=\"source-list\">\n"@
    }
}

/// The link to a source.
pub open spec fn item_html<P>(r: SourceRepoView<P>) -> Seq<char> {
    "<li><a href=\"/s/"@ + escape::path_escaped(vstd::utf8::encode_utf8(r.namespace)) + "/"@
        + escape::path_escaped(vstd::utf8::encode_utf8(r.name)) + "\">"@ + escape::escaped(r.name)
        + "</a></li>\n"@
}

/// The links to the first `n` sources, under the headings of their namespaces.
pub open spec fn items_html<P>(repos: Seq<SourceRepoView<P>>, n: nat) -> Seq<char>
    decreases n,
{
    if n == 0 {
        seq![]
    } else {
        items_html(repos, (n - 1) as nat) + heading_html(repos, n - 1) + item_html(repos[n - 1])
    }
}

/// The page of all sources below `root`.
pub open spec fn sources_html<P>(
    root: Seq<char>,
    repos: Seq<SourceRepoView<P>>,
    sync: LastSync,
) -> Seq<char> {
    let n = repos.len();
    template::PAGE_HEAD@ + page::nav_html(Section::Sources, sync) + "<p class=\"sub\">root: <code>"@
        + escape::escaped(root) + "</code> &middot; "@ + text::decimal(n) + " source"@ + plural(n)
        + "</p>\n"@ + (if n == 0 {
        "<p>No jj source repos found.</p>\n"@
    } else {
        ""@
    }) + items_html(repos, n) + (if n == 0 {
        ""@
    } else {
        "</ul>\n"@
    }) + template::PAGE_TAIL@
}

fn render_heading<P>(repos: &Vec<SourceRepo<P>>, i: usize) -> (out: String)
    requires
        i < repos.len(),
    ensures
        out@ == heading_html(repos.deep_view(), i as int),
{
    proof {
        assert(repos.deep_view()[i as int] == repos@[i as int].deep_view());
        if i > 0 {
            assert(repos.deep_view()[i - 1] == repos@[i - 1].deep_view());
        }
    }
    if i > 0 && repos[i - 1].namespace == repos[i].namespace {
        return "".to_owned();
    }
    let mut out = if i > 0 {
        "</ul>\n".to_owned()
    } else {
        "".to_owned()
    };
    out.append("<h2>");
    out.append(escape::html_escape(repos[i].namespace.as_str()).as_str());
    out.append("</h2>\n<ul class=\"source-list\">\n");
    out
}

/// The page of all sources below `root`: a list for each namespace, in the order of `repos`. Where
/// the sources could not be listed, it is the page of the error that says why.
pub fn render_sources_index<P>(
    root: &str,
    repos: Result<Vec<SourceRepo<P>>, String>,
    sync: LastSync,
) -> (out: String)
    ensures
        match repos {
            Ok(list) => out@ == sources_html(root@, list.deep_view(), sync),
            Err(reason) => out@ == page::error_html("scan_sources failed: "@ + reason@),
        },
{
    match repos {
        Ok(list) => render_source_list(root, &list, sync),
        Err(reason) => {
            let mut msg = "scan_sources failed: ".to_owned();
            msg.append(reason.as_str());
            page::error_page(msg.as_str())
        },
    }
}

fn render_source_list<P>(root: &str, repos: &Vec<SourceRepo<P>>, sync: LastSync) -> (out: String)
    ensures
        out@ == sources_html(root@, repos.deep_view(), sync),
{
    let ghost all = repos.deep_view();
    let mut items = String::new();
    let mut i: usize = 0;
    assert(items@ =~= items_html(all, 0));
    while i < repos.len()
        invariant
            i <= repos.len(),
            all == repos.deep_view(),
            items@ == items_html(all, i as nat),
        decreases repos.len() - i,
    {
        let r = &repos[i];
        assert(all[i as int] == r.deep_view());
        items.append(render_heading(repos, i).as_str());
        let mut item = "<li><a href=\"/s/".to_owned();
        item.append(escape::url_path_escape(r.namespace.as_str()).as_str());
        item.append("/");
        item.append(escape::url_path_escape(r.name.as_str()).as_str());
        item.append("\">");
        item.append(escape::html_escape(r.name.as_str()).as_str());
        item.append("</a></li>\n");
        items.append(item.as_str());
        i += 1;
    }
    let mut out = template::PAGE_HEAD.to_owned();
    out.append(page::render_nav(Section::Sources, sync).as_str());
    out.append("<p class=\"sub\">root: <code>");
    out.append(escape::html_escape(root).as_str());
    out.append("</code> &middot; ");
    out.append(text::number_text(repos.len() as u64).as_str());
    out.append(" source");
    out.append(
        if repos.len() == 1 {
            ""
        } else {
            "s"
        },
    );
    out.append("</p>\n");
    out.append(
        if repos.len() == 0 {
            "<p>No jj source repos found.</p>\n"
        } else {
            ""
        },
    );
    out.append(items.as_str());
    out.append(
        if repos.len() == 0 {
            ""
        } else {
            "</ul>\n"
        },
    );
    out.append(template::PAGE_TAIL);
    out
}

/// What is said of a path that names no source; `quoted_path` is the path in quotes.
pub fn bad_source_path(quoted_path: &str) -> (out: String)
    ensures
        out@ == "bad path "@ + quoted_path@ + "; expected <namespace>/<repo>"@,
{
    let mut out = "bad path ".to_owned();
    out.append(quoted_path);
    out.append("; expected <namespace>/<repo>");
    out
}

/// The namespace and the name of the source that a path names: what stands before its first slash
/// and what stands behind.
pub fn split_source_path(nsrepo: &str) -> (out: Result<(String, String), String>)
    ensures
        match out {
            Ok(parts) => text::cut(nsrepo@, '/') == Some(parts.deep_view()),
            Err(msg) => text::cut(nsrepo@, '/') is None && msg@ == "bad path "@ + debug_quoted(
                nsrepo@,
            ) + "; expected <namespace>/<repo>"@,
        },
        out is Ok <==> nsrepo@.contains('/'),
        match out {
            Ok(parts) => nsrepo@ == parts.0@ + seq!['/'] + parts.1@ && !parts.0@.contains('/'),
            Err(_) => true,
        },
{
    let chars = text::chars_of(nsrepo);
    proof {
        text::law_cut(nsrepo@, '/');
    }
    match text::split_once(chars.as_slice(), '/') {
        Some((ns, name)) => Ok((text::text_of(ns), text::text_of(name))),
        None => Err(bad_source_path(quoted(nsrepo).as_str())),
    }
}

/// What is said of a source that jj does not manage or that is not there.
pub fn no_such_source(path: &str) -> (out: String)
    ensures
        out@ == "no jj source repo at "@ + path@,
{
    let mut out = "no jj source repo at ".to_owned();
    out.append(path);
    out
}

/// What is said of a source whose log cannot be had.
pub fn source_log_failed(reason: &str) -> (out: String)
    ensures
        out@ == "jj log failed: "@ + reason@,
{
    let mut out = "jj log failed: ".to_owned();
    out.append(reason);
    out
}

/// The commits to show of a source, from its log and what is known of the pull requests.
pub open spec fn source_focus(
    lines: Seq<LogLineView>,
    map: Map<gh::PrKey, PrInfoView>,
) -> Seq<LogLineView> {
    focus::focused(log_view::annotated_lines(lines, map))
}

/// The commits to show of a source. Of these jj is to be asked for a graph of their own (see
/// `focus::focus_commit_ids`), which `render_source` shows.
pub fn focus_source(lines: Vec<LogLine>, map: &PrMap) -> (out: Vec<LogLine>)
    requires
        map.wf(),
    ensures
        out.deep_view() == source_focus(lines.deep_view(), map@),
{
    focus::focus_on_open(log_view::annotate_drafts(lines, map))
}

/// Opens the page of the source that the path `nsrepo` names, which is to stand at `path`:
/// `has_jj` says whether jj manages a repository there, and `log` is its log, or why it cannot be
/// had. The result are the commits to show; an error comes, in this order, where the path names no
/// source, where the source is not there, and where it has no log.
pub fn open_source(
    nsrepo: &str,
    path: &str,
    has_jj: bool,
    log: Result<Vec<LogLine>, String>,
    map: &PrMap,
) -> (out: Result<Vec<LogLine>, String>)
    requires
        map.wf(),
    ensures
        match out {
            Ok(shown) => text::cut(nsrepo@, '/') is Some && has_jj && (log matches Ok(lines)
                && shown.deep_view() == source_focus(lines.deep_view(), map@)),
            Err(msg) => {
                ||| text::cut(nsrepo@, '/') is None && msg@ == "bad path "@ + debug_quoted(nsrepo@)
                    + "; expected <namespace>/<repo>"@
                ||| text::cut(nsrepo@, '/') is Some && !has_jj && msg@ == "no jj source repo at "@
                    + path@
                ||| text::cut(nsrepo@, '/') is Some && has_jj && (log matches Err(reason) && msg@
                    == "jj log failed: "@ + reason@)
            },
        },
{
    match split_source_path(nsrepo) {
        Err(msg) => Err(msg),
        Ok(_) => {
            if !has_jj {
                return Err(no_such_source(path));
            }
            match log {
                Ok(lines) => Ok(focus_source(lines, map)),
                Err(reason) => Err(source_log_failed(reason.as_str())),
            }
        },
    }
}

/// A commit of a source's log whose pull request is known to be open is among those to show.
pub proof fn law_open_pr_is_shown(
    lines: Seq<LogLineView>,
    map: Map<gh::PrKey, PrInfoView>,
    i: int,
    url: Seq<char>,
    key: gh::PrKey,
)
    requires
        0 <= i < lines.len(),
        lines[i].commit is Some,
        focus::commit_at(lines, i).pr_url == Some(url),
        gh::pr_url_parts(url) == Some(key),
        map.contains_key(key),
        map[key].state == PrState::Open,
    ensures
        focus::has_id(source_focus(lines, map), focus::commit_at(lines, i).commit_id),
{
    let marked = log_view::annotated_lines(lines, map);
    assert(marked[i] == log_view::annotated_line(lines[i], map));
    focus::law_open_is_shown(marked, i);
}

/// The page of the source `ns/name` at `path`.
pub open spec fn source_html(
    ns: Seq<char>,
    name: Seq<char>,
    path: Seq<char>,
    lines: Seq<LogLineView>,
    tags: Tags,
    sync: LastSync,
) -> Seq<char> {
    template::PAGE_HEAD@ + page::nav_html(Section::Sources, sync) + page::CONTROLS@
        + "<p class=\"sub\"><a href=\"/sources\">&larr; all sources</a> &middot; <code>"@
        + escape::escaped(path) + "</code></p>\n"@ + "<h2>"@ + escape::escaped(ns) + "/"@
        + escape::escaped(name) + "</h2>\n"@ + (if lines.len() == 0 {
        "<p class=\"empty\">no commits with open PRs</p>\n"@
    } else {
        page::copy_html(
            "md-src-"@ + escape::slug(ns) + "-"@ + escape::slug(name),
            markdown::source_md(ns, name, lines, tags),
        ) + "<div class=\"stack\">\n"@ + page::rows_html(lines, tags, None) + "</div>\n"@
    }) + template::PAGE_TAIL@
}

/// The lines of a source's page: the graph of the commits shown, if there is one, with what is
/// known of these.
pub open spec fn source_lines(
    focused: Seq<LogLineView>,
    topo: Option<Seq<LogLineView>>,
) -> Seq<LogLineView> {
    match topo {
        Some(graph) => focus::grafted(graph, focused),
        None => seq![],
    }
}

/// The page of the source `ns/name` at `path`: the graph `topo` that jj drew of the commits in
/// `focused` (`None` where it failed), with what is known of these, and the workspaces that hold
/// them.
pub fn render_source(
    ns: &str,
    name: &str,
    path: &str,
    focused: &Vec<LogLine>,
    topo: Option<Vec<LogLine>>,
    tags: &CommitTags,
    sync: LastSync,
) -> (out: String)
    ensures
        out@ == source_html(
            ns@,
            name@,
            path@,
            source_lines(focused.deep_view(), topo.deep_view()),
            tags.deep_view(),
            sync,
        ),
{
    let grafted: Vec<LogLine> = match topo {
        Some(graph) => focus::graft(graph, focused),
        None => Vec::new(),
    };
    proof {
        if topo is None {
            assert(grafted.deep_view() =~= seq![]);
        }
    }
    let mut out = template::PAGE_HEAD.to_owned();
    out.append(page::render_nav(Section::Sources, sync).as_str());
    out.append(page::CONTROLS);
    out.append("<p class=\"sub\"><a href=\"/sources\">&larr; all sources</a> &middot; <code>");
    out.append(escape::html_escape(path).as_str());
    out.append("</code></p>\n");
    out.append("<h2>");
    out.append(escape::html_escape(ns).as_str());
    out.append("/");
    out.append(escape::html_escape(name).as_str());
    out.append("</h2>\n");
    if grafted.len() == 0 {
        out.append("<p class=\"empty\">no commits with open PRs</p>\n");
    } else {
        let md = markdown::build_source_md(ns, name, &grafted, tags);
        let mut id = "md-src-".to_owned();
        id.append(escape::id_slug(ns).as_str());
        id.append("-");
        id.append(escape::id_slug(name).as_str());
        let mut list = page::render_copy_button(id.as_str(), md.as_str());
        list.append("<div class=\"stack\">\n");
        list.append(page::render_log_lines(&grafted, tags, None).as_str());
        list.append("</div>\n");
        out.append(list.as_str());
    }
    out.append(template::PAGE_TAIL);
    out
}

// ---------------------------------------------------------------------------------------------
// What the pages show, in terms of what was found

proof fn lemma_occurs(s: Seq<char>, a: Seq<char>, p: Seq<char>, b: Seq<char>)
    requires
        s == a + p + b,
    ensures
        text::occurs(s, p),
{
    text::law_occurs(s, p);
    assert(s == a + p + b);
}

/// A repository is shown with its name, escaped, and with all its rows where there are any.
pub proof fn law_repository_html(
    name: Seq<char>,
    lines: Seq<LogLineView>,
    tags: Tags,
    hide: Option<Seq<char>>,
)
    ensures
        text::occurs(repo_html(name, lines, tags, hide), escape::escaped(name)),
        lines.len() > 0 ==> text::occurs(
            repo_html(name, lines, tags, hide),
            page::rows_html(lines, tags, hide),
        ),
        lines.len() == 0 ==> text::occurs(
            repo_html(name, lines, tags, hide),
            "<p class=\"empty\">no commits ahead of trunk</p>\n"@,
        ),
{
    let html = repo_html(name, lines, tags, hide);
    let rows = page::rows_html(lines, tags, hide);
    let a = "<div class=\"repo\">\n<h3>"@;
    let b = "</h3>\n"@;
    let none = "<p class=\"empty\">no commits ahead of trunk</p>\n"@;
    let body = if lines.len() == 0 {
        none
    } else {
        "<div class=\"stack\">\n"@ + rows + "</div>\n"@
    };
    let end = "</div>\n"@;
    assert(html =~= a + escape::escaped(name) + (b + body + end));
    lemma_occurs(html, a, escape::escaped(name), b + body + end);
    if lines.len() > 0 {
        let front = a + escape::escaped(name) + b + "<div class=\"stack\">\n"@;
        assert(html =~= front + rows + ("</div>\n"@ + end));
        lemma_occurs(html, front, rows, "</div>\n"@ + end);
    } else {
        let front = a + escape::escaped(name) + b;
        assert(html =~= front + none + end);
        lemma_occurs(html, front, none, end);
    }
}

/// The repositories of a workspace stand one behind the other.
pub proof fn law_repositories_html(
    repos: Seq<(Seq<char>, Seq<LogLineView>)>,
    name: Seq<char>,
    lines: Seq<LogLineView>,
    tags: Tags,
    hide: Option<Seq<char>>,
)
    ensures
        repos_html(Seq::empty(), tags, hide).len() == 0,
        repos_html(repos.push((name, lines)), tags, hide) == repos_html(repos, tags, hide)
            + repo_html(name, lines, tags, hide),
{
    let more = repos.push((name, lines));
    assert(more.drop_last() =~= repos);
    assert(more.last() == (name, lines));
}

/// A workspace is shown with its path and its repositories, if it has any; the Markdown that can be
/// copied is that of the same branch and the same repositories.
pub proof fn law_workspace_html(
    place: nat,
    branch: Seq<char>,
    path: Seq<char>,
    repos: Seq<(Seq<char>, Seq<LogLineView>)>,
    tags: Tags,
    hide: Option<Seq<char>>,
)
    ensures
        ({
            let html = workspace_html(place, branch, path, repos, tags, hide);
            &&& text::occurs(html, escape::escaped(branch))
            &&& text::occurs(html, escape::escaped(path))
            &&& text::occurs(
                html,
                page::copy_html(
                    section_id(place, branch),
                    markdown::workspace_md(branch, repos),
                ),
            )
            &&& repos.len() > 0 ==> text::occurs(html, repos_html(repos, tags, hide))
            &&& repos.len() == 0 ==> text::occurs(html, "<p class=\"empty\">no jj repos</p>\n"@)
        }),
{
    let html = workspace_html(place, branch, path, repos, tags, hide);
    let a = "<section class=\"ws\">\n<h2><a href=\"/w/"@ + escape::path_escaped(
        vstd::utf8::encode_utf8(branch),
    ) + "\">"@;
    let b = "</a></h2>\n<p class=\"sub\"><code>"@;
    let c = "</code></p>\n"@;
    let copy = page::copy_html(section_id(place, branch), markdown::workspace_md(branch, repos));
    let body = if repos.len() == 0 {
        "<p class=\"empty\">no jj repos</p>\n"@
    } else {
        repos_html(repos, tags, hide)
    };
    let end = "</section>\n"@;
    let eb = escape::escaped(branch);
    let ep = escape::escaped(path);
    assert(html == a + eb + b + ep + c + copy + body + end);
    lemma_pieces_occur(html, a, eb, b, ep, c, copy, body, end);
}

proof fn lemma_pieces_occur(
    html: Seq<char>,
    a: Seq<char>,
    p: Seq<char>,
    b: Seq<char>,
    q: Seq<char>,
    c: Seq<char>,
    r: Seq<char>,
    s: Seq<char>,
    end: Seq<char>,
)
    requires
        html == a + p + b + q + c + r + s + end,
    ensures
        text::occurs(html, p),
        text::occurs(html, q),
        text::occurs(html, r),
        text::occurs(html, s),
{
    assert(html =~= a + p + (b + q + c + r + s + end));
    lemma_occurs(html, a, p, b + q + c + r + s + end);
    assert(html =~= (a + p + b) + q + (c + r + s + end));
    lemma_occurs(html, a + p + b, q, c + r + s + end);
    assert(html =~= (a + p + b + q + c) + r + (s + end));
    lemma_occurs(html, a + p + b + q + c, r, s + end);
    lemma_occurs(html, a + p + b + q + c + r, s, end);
}

/// A workspace with a jj repository has a section of its own, behind those before it, and counts; one
/// without is left out and does not count.
pub proof fn law_sections<P>(
    workspaces: Seq<WorkspaceLogsView<P>>,
    w: WorkspaceLogsView<P>,
    map: Map<gh::PrKey, PrInfoView>,
)
    ensures
        sections_html(Seq::<WorkspaceLogsView<P>>::empty(), map).len() == 0,
        jj_count(Seq::<WorkspaceLogsView<P>>::empty()) == 0,
        (exists|i: int|
            0 <= i < w.ws.repos.len() && (#[trigger] w.ws.repos[i]).kind == discovery::RepoKind::Jj)
            ==> sections_html(workspaces.push(w), map) == sections_html(workspaces, map)
            + section_html(workspaces.len(), w, map) && jj_count(workspaces.push(w)) == jj_count(
            workspaces,
        ) + 1,
        (forall|i: int|
            0 <= i < w.ws.repos.len() ==> (#[trigger] w.ws.repos[i]).kind
                == discovery::RepoKind::GitOnly) ==> sections_html(workspaces.push(w), map)
            == sections_html(workspaces, map) && jj_count(workspaces.push(w)) == jj_count(
            workspaces,
        ),
{
    assert(workspaces.push(w).drop_last() =~= workspaces);
    assert(workspaces.push(w).last() == w);
    discovery::law_any_jj(w.ws);
}

/// A workspace's section shows its branch, its path, and what its jj repositories have to show; it
/// has no chips.
pub proof fn law_section<P>(
    place: nat,
    w: WorkspaceLogsView<P>,
    map: Map<gh::PrKey, PrInfoView>,
)
    ensures
        text::occurs(section_html(place, w, map), escape::escaped(w.ws.branch)),
        text::occurs(section_html(place, w, map), escape::escaped(w.path_text)),
        forall|hide: Option<Seq<char>>|
            log_view::ws_lines(w, map).len() > 0 ==> text::occurs(
                section_html(place, w, map),
                #[trigger] repos_html(log_view::ws_lines(w, map), Seq::empty(), hide),
            ),
{
    let lines = log_view::ws_lines(w, map);
    law_workspace_html(place, w.ws.branch, w.path_text, lines, Seq::empty(), Some(w.ws.branch));
    assert forall|hide: Option<Seq<char>>| lines.len() > 0 implies text::occurs(
        section_html(place, w, map),
        #[trigger] repos_html(lines, Seq::empty(), hide),
    ) by {
        lemma_untagged_repos(lines, hide, Some(w.ws.branch));
    }
}

proof fn lemma_untagged_rows(
    lines: Seq<LogLineView>,
    a: Option<Seq<char>>,
    b: Option<Seq<char>>,
)
    ensures
        page::rows_html(lines, Seq::empty(), a) == page::rows_html(lines, Seq::empty(), b),
    decreases lines.len(),
{
    if lines.len() > 0 {
        lemma_untagged_rows(lines.drop_last(), a, b);
        let l = lines.last();
        match l.commit {
            Some(c) => {
                let none = log_view::branches_of(Seq::empty(), c.commit_id);
                assert(none.len() == 0);
                assert(page::chip_branches(none, a) =~= Seq::empty());
                assert(page::chip_branches(none, b) =~= Seq::empty());
            },
            None => {},
        }
    }
}

proof fn lemma_untagged_repos(
    repos: Seq<(Seq<char>, Seq<LogLineView>)>,
    a: Option<Seq<char>>,
    b: Option<Seq<char>>,
)
    ensures
        repos_html(repos, Seq::empty(), a) == repos_html(repos, Seq::empty(), b),
    decreases repos.len(),
{
    if repos.len() > 0 {
        lemma_untagged_repos(repos.drop_last(), a, b);
        lemma_untagged_rows(repos.last().1, a, b);
    }
}

/// The index gives the root and the number of workspaces, in the singular for one only, and all
/// their sections; where there are none it says so.
pub proof fn law_index<P>(
    root: Seq<char>,
    workspaces: Seq<WorkspaceLogsView<P>>,
    map: Map<gh::PrKey, PrInfoView>,
    sync: LastSync,
)
    ensures
        ({
            let html = index_html(root, workspaces, map, sync);
            let n = jj_count(workspaces);
            &&& text::occurs(html, escape::escaped(root))
            &&& n == 1 ==> text::occurs(html, text::decimal(n) + " workspace"@ + "</p>\n"@)
            &&& n != 1 ==> text::occurs(html, text::decimal(n) + " workspace"@ + "s"@ + "</p>\n"@)
            &&& n == 0 ==> text::occurs(html, "<p>No jj workspaces found.</p>\n"@)
            &&& text::occurs(html, sections_html(workspaces, map))
        }),
{
    let html = index_html(root, workspaces, map, sync);
    let n = jj_count(workspaces);
    let head = template::PAGE_HEAD@ + page::nav_html(Section::Workspaces, sync) + page::CONTROLS@
        + "<p class=\"sub\">root: <code>"@;
    let dot = "</code> &middot; "@;
    let count = text::decimal(n) + " workspace"@ + plural(n) + "</p>\n"@;
    let none = if n == 0 {
        "<p>No jj workspaces found.</p>\n"@
    } else {
        ""@
    };
    let body = sections_html(workspaces, map);
    let tail = template::PAGE_TAIL@;
    let e = Seq::<char>::empty();
    assert(html =~= head + escape::escaped(root) + dot + count + e + none + body + tail);
    lemma_pieces_occur(html, head, escape::escaped(root), dot, count, e, none, body, tail);
    if n == 1 {
        assert(""@ =~= Seq::<char>::empty()) by {
            reveal_strlit("");
        }
        assert(count =~= text::decimal(n) + " workspace"@ + "</p>\n"@);
    }
}

/// The workspace shown for a branch is the first on that branch that has a jj repository.
pub proof fn law_first_on<P>(
    workspaces: Seq<WorkspaceLogsView<P>>,
    branch: Seq<char>,
    i: int,
    r: int,
)
    requires
        0 <= i < workspaces.len(),
        workspaces[i].ws.branch == branch,
        0 <= r < workspaces[i].ws.repos.len(),
        workspaces[i].ws.repos[r].kind == discovery::RepoKind::Jj,
    ensures
        exists|k: int| 0 <= k <= i && #[trigger] first_on(workspaces, branch, k),
        forall|j: int, k: int|
            #[trigger] first_on(workspaces, branch, j) && #[trigger] first_on(workspaces, branch, k)
                ==> j == k,
        forall|k: int| #[trigger] first_on(workspaces, branch, k) ==> workspaces[k].ws.branch == branch,
    decreases i,
{
    discovery::law_any_jj(workspaces[i].ws);
    assert(discovery::any_jj(workspaces[i].ws)) by {
        assert(workspaces[i].ws.repos[r].kind == discovery::RepoKind::Jj);
    }
    assert(on_branch(workspaces[i], branch));
    if first_on(workspaces, branch, i) {
    } else {
        let j = choose|j: int| 0 <= j < i && on_branch(#[trigger] workspaces[j], branch);
        let w = workspaces[j];
        let s = choose|s: int|
            0 <= s < w.ws.repos.len() && (#[trigger] w.ws.repos[s]).kind == discovery::RepoKind::Jj;
        law_first_on(workspaces, branch, j, s);
    }
    assert forall|j: int, k: int| #[trigger]
        first_on(workspaces, branch, j) && #[trigger] first_on(workspaces, branch, k) implies j == k by {
        if j < k {
            assert(!on_branch(workspaces[j], branch));
        } else if k < j {
            assert(!on_branch(workspaces[k], branch));
        }
    }
}

/// No workspace is shown for a branch where none on it has a jj repository.
pub proof fn law_none_on<P>(workspaces: Seq<WorkspaceLogsView<P>>, branch: Seq<char>, k: int)
    requires
        forall|i: int, r: int|
            0 <= i < workspaces.len() && workspaces[i].ws.branch == branch && 0 <= r
                < workspaces[i].ws.repos.len() ==> (#[trigger] workspaces[i].ws.repos[r]).kind
                == discovery::RepoKind::GitOnly,
    ensures
        !first_on(workspaces, branch, k),
{
    if first_on(workspaces, branch, k) {
        let w = workspaces[k];
        let r = choose|r: int|
            0 <= r < w.ws.repos.len() && (#[trigger] w.ws.repos[r]).kind == discovery::RepoKind::Jj;
        assert(workspaces[k].ws.repos[r].kind == discovery::RepoKind::GitOnly);
    }
}

/// The list of sources has a heading for each run of sources in one namespace: one more source adds
/// a heading where it is the first or stands in another namespace than the one before it, and its
/// item.
pub proof fn law_source_items<P>(repos: Seq<SourceRepoView<P>>, r: SourceRepoView<P>)
    ensures
        repos.len() > 0 && repos.last().namespace == r.namespace ==> items_html(
            repos.push(r),
            repos.len() + 1,
        ) == items_html(repos, repos.len()) + item_html(r),
        repos.len() > 0 && repos.last().namespace != r.namespace ==> items_html(
            repos.push(r),
            repos.len() + 1,
        ) == items_html(repos, repos.len()) + ("</ul>\n"@ + "<h2>"@ + escape::escaped(r.namespace)
            + "</h2>\n<ul class=\"source-list\">\n"@) + item_html(r),
        repos.len() == 0 ==> items_html(repos.push(r), repos.len() + 1) == "<h2>"@
            + escape::escaped(r.namespace) + "</h2>\n<ul class=\"source-list\">\n"@ + item_html(r),
{
    let all = repos.push(r);
    let n = repos.len();
    lemma_items_of_front(repos, r, n);
    assert(""@ =~= Seq::<char>::empty()) by {
        reveal_strlit("");
    }
    assert(items_html(all, n + 1) == items_html(all, n) + heading_html(all, n as int) + item_html(
        all[n as int],
    ));
    assert(all[n as int] == r);
    if n > 0 {
        assert(all[n - 1] == repos.last());
        if repos.last().namespace == r.namespace {
            assert(items_html(repos, n) + ""@ =~= items_html(repos, n));
        }
    } else {
        assert(items_html(all, 0) =~= Seq::<char>::empty());
        let h = "<h2>"@ + escape::escaped(r.namespace) + "</h2>\n<ul class=\"source-list\">\n"@;
        assert(heading_html(all, 0) =~= h);
        assert(Seq::<char>::empty() + h =~= h);
    }
}

proof fn lemma_items_of_front<P>(repos: Seq<SourceRepoView<P>>, r: SourceRepoView<P>, n: nat)
    requires
        n <= repos.len(),
    ensures
        items_html(repos.push(r), n) == items_html(repos, n),
    decreases n,
{
    if n > 0 {
        lemma_items_of_front(repos, r, (n - 1) as nat);
        let all = repos.push(r);
        assert(all[n - 1] == repos[n - 1]);
        if n > 1 {
            assert(all[n - 2] == repos[n - 2]);
        }
        assert(heading_html(all, n - 1) == heading_html(repos, n - 1));
    }
}

/// A source's item links to its page, by namespace and name, and shows its name.
pub proof fn law_source_item<P>(r: SourceRepoView<P>)
    ensures
        text::occurs(
            item_html(r),
            escape::path_escaped(vstd::utf8::encode_utf8(r.namespace)) + "/"@
                + escape::path_escaped(vstd::utf8::encode_utf8(r.name)) + "\">"@ + escape::escaped(
                r.name,
            ),
        ),
{
    let body = escape::path_escaped(vstd::utf8::encode_utf8(r.namespace)) + "/"@
        + escape::path_escaped(vstd::utf8::encode_utf8(r.name)) + "\">"@ + escape::escaped(r.name);
    assert(item_html(r) =~= "<li><a href=\"/s/"@ + body + "</a></li>\n"@);
    lemma_occurs(item_html(r), "<li><a href=\"/s/"@, body, "</a></li>\n"@);
}

/// The list of sources gives the root and the number of sources, in the singular for one only, and
/// all their items; where there are none it says so.
pub proof fn law_sources_page<P>(root: Seq<char>, repos: Seq<SourceRepoView<P>>, sync: LastSync)
    ensures
        ({
            let html = sources_html(root, repos, sync);
            let n = repos.len();
            &&& text::occurs(html, escape::escaped(root))
            &&& n == 1 ==> text::occurs(html, text::decimal(n) + " source"@ + "</p>\n"@)
            &&& n != 1 ==> text::occurs(html, text::decimal(n) + " source"@ + "s"@ + "</p>\n"@)
            &&& n == 0 ==> text::occurs(html, "<p>No jj source repos found.</p>\n"@)
            &&& n > 0 ==> text::occurs(html, items_html(repos, n) + "</ul>\n"@)
        }),
{
    let html = sources_html(root, repos, sync);
    let n = repos.len();
    let head = template::PAGE_HEAD@ + page::nav_html(Section::Sources, sync)
        + "<p class=\"sub\">root: <code>"@;
    let dot = "</code> &middot; "@;
    let count = text::decimal(n) + " source"@ + plural(n) + "</p>\n"@;
    let none = if n == 0 {
        "<p>No jj source repos found.</p>\n"@
    } else {
        ""@
    };
    let body = items_html(repos, n) + (if n == 0 {
        ""@
    } else {
        "</ul>\n"@
    });
    let tail = template::PAGE_TAIL@;
    let e = Seq::<char>::empty();
    assert(html =~= head + escape::escaped(root) + dot + count + e + none + body + tail);
    lemma_pieces_occur(html, head, escape::escaped(root), dot, count, e, none, body, tail);
    if n == 1 {
        assert(""@ =~= Seq::<char>::empty()) by {
            reveal_strlit("");
        }
        assert(count =~= text::decimal(n) + " source"@ + "</p>\n"@);
    }
}

/// Of a source whose pull requests are none of them open, nothing is shown: where a pull request is
/// known its state is not `Open`, and where it is not, its commit did not say so before.
pub proof fn law_source_without_open_prs(
    lines: Seq<LogLineView>,
    map: Map<gh::PrKey, PrInfoView>,
)
    requires
        forall|i: int|
            0 <= i < lines.len() && (#[trigger] lines[i]).commit is Some
                && lines[i].commit->0.pr_url is Some ==> match gh::pr_url_parts(
                lines[i].commit->0.pr_url->0,
            ) {
                Some(k) => if map.contains_key(k) {
                    map[k].state != PrState::Open
                } else {
                    lines[i].commit->0.pr_state != Some(PrState::Open)
                },
                None => lines[i].commit->0.pr_state != Some(PrState::Open),
            },
    ensures
        source_focus(lines, map).len() == 0,
{
    let rich = log_view::annotated_lines(lines, map);
    assert forall|i: int| 0 <= i < rich.len() && (#[trigger] rich[i]).commit is Some implies !(
    rich[i].commit->0.pr_url is Some && rich[i].commit->0.pr_state == Some(PrState::Open)) by {
        assert(lines[i].commit is Some);
    }
    focus::law_no_open_state_shows_nothing(rich);
}

/// A source's page gives its path, its namespace and its name; its rows and what can be copied where
/// there is something to show, and a note where there is not.
pub proof fn law_source_page(
    ns: Seq<char>,
    name: Seq<char>,
    path: Seq<char>,
    lines: Seq<LogLineView>,
    tags: Tags,
    sync: LastSync,
)
    ensures
        ({
            let html = source_html(ns, name, path, lines, tags, sync);
            &&& text::occurs(html, escape::escaped(path))
            &&& text::occurs(html, escape::escaped(ns) + "/"@ + escape::escaped(name))
            &&& lines.len() == 0 ==> text::occurs(
                html,
                "<p class=\"empty\">no commits with open PRs</p>\n"@,
            )
            &&& lines.len() > 0 ==> text::occurs(html, page::rows_html(lines, tags, None))
            &&& lines.len() > 0 ==> text::occurs(
                html,
                page::copy_html(
                    "md-src-"@ + escape::slug(ns) + "-"@ + escape::slug(name),
                    markdown::source_md(ns, name, lines, tags),
                ),
            )
        }),
{
    let html = source_html(ns, name, path, lines, tags, sync);
    let head = template::PAGE_HEAD@ + page::nav_html(Section::Sources, sync) + page::CONTROLS@
        + "<p class=\"sub\"><a href=\"/sources\">&larr; all sources</a> &middot; <code>"@;
    let ep = escape::escaped(path);
    let b = "</code></p>\n"@ + "<h2>"@;
    let title = escape::escaped(ns) + "/"@ + escape::escaped(name);
    let c = "</h2>\n"@;
    let tail = template::PAGE_TAIL@;
    let e = Seq::<char>::empty();
    let none = "<p class=\"empty\">no commits with open PRs</p>\n"@;
    let copy = page::copy_html(
        "md-src-"@ + escape::slug(ns) + "-"@ + escape::slug(name),
        markdown::source_md(ns, name, lines, tags),
    );
    let stack = "<div class=\"stack\">\n"@;
    let rows = page::rows_html(lines, tags, None);
    if lines.len() == 0 {
        assert(html =~= head + ep + b + title + c + none + e + tail);
        lemma_pieces_occur(html, head, ep, b, title, c, none, e, tail);
    } else {
        let body = stack + rows + "</div>\n"@;
        assert(html =~= head + ep + b + title + c + copy + body + tail);
        lemma_pieces_occur(html, head, ep, b, title, c, copy, body, tail);
        let front = head + ep + b + title + c + copy + stack;
        assert(html =~= front + rows + ("</div>\n"@ + tail));
        lemma_occurs(html, front, rows, "</div>\n"@ + tail);
    }
}

/// The page of one workspace shows its section, as the first on the page.
pub proof fn law_one_page<P>(
    w: WorkspaceLogsView<P>,
    map: Map<gh::PrKey, PrInfoView>,
    sync: LastSync,
)
    ensures
        text::occurs(one_html(w, map, sync), section_html(0, w, map)),
        text::occurs(one_html(w, map, sync), page::nav_html(Section::Workspaces, sync)),
{
    let html = one_html(w, map, sync);
    let nav = page::nav_html(Section::Workspaces, sync);
    let back = "<p class=\"sub\"><a href=\"/\">&larr; all workspaces</a></p>\n"@;
    let section = section_html(0, w, map);
    lemma_two_pieces_occur(
        html,
        template::PAGE_HEAD@,
        nav,
        page::CONTROLS@,
        back,
        section,
        template::PAGE_TAIL@,
    );
}

proof fn lemma_two_pieces_occur(
    html: Seq<char>,
    a: Seq<char>,
    p: Seq<char>,
    b: Seq<char>,
    c: Seq<char>,
    q: Seq<char>,
    end: Seq<char>,
)
    requires
        html == a + p + b + c + q + end,
    ensures
        text::occurs(html, p),
        text::occurs(html, q),
{
    assert(html =~= a + p + (b + c + q + end));
    lemma_occurs(html, a, p, b + c + q + end);
    lemma_occurs(html, a + p + b + c, q, end);
}

/// Without a graph from jj a source has no lines to show; with one it has the graph's, each with the
/// graph that jj drew on it.
pub proof fn law_source_lines(focused: Seq<LogLineView>, topo: Option<Seq<LogLineView>>)
    ensures
        topo is None ==> source_lines(focused, topo).len() == 0,
        topo is Some ==> source_lines(focused, topo).len() == topo->0.len(),
        topo is Some ==> forall|i: int|
            0 <= i < topo->0.len() ==> (#[trigger] source_lines(focused, topo)[i]).graph
                == topo->0[i].graph && (source_lines(focused, topo)[i].commit is Some
                <==> topo->0[i].commit is Some),
{
    if topo is Some {
        let t = topo->0;
        assert forall|i: int| 0 <= i < t.len() implies (#[trigger] source_lines(
            focused,
            topo,
        )[i]).graph == t[i].graph && (source_lines(focused, topo)[i].commit is Some
            <==> t[i].commit is Some) by {
            focus::law_graft_keeps_the_graph(t, focused, i);
        }
    }
}

} // verus!
