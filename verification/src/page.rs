//! The parts that pages are made of, as HTML.
use vstd::prelude::*;

use crate::escape;
use crate::gh::PrState;
use crate::jj::Commit;
use crate::jj::CommitView;
use crate::jj::LogLine;
use crate::jj::LogLineView;
use crate::log_view;
use crate::log_view::CommitTags;
use crate::log_view::Tags;
use crate::markdown;
use crate::template;
use crate::text;

verus! {

// ---------------------------------------------------------------------------------------------
// The bar at the top

/// When the pull requests were last asked for, seen from now.
#[derive(Debug, Clone, Copy)]
pub enum LastSync {
    Never,
    /// So many seconds ago.
    Ago(u64),
    /// The clock went back since.
    Ahead,
}

/// Which part of the site a page belongs to.
#[derive(Debug, Clone, Copy, PartialEq, Eq, Structural)]
pub enum Section {
    Workspaces,
    Sources,
}

/// An age of `s` seconds in words, in the largest unit that fits.
pub open spec fn age_text(s: nat) -> Seq<char> {
    if s < 5 {
        "just now"@
    } else if s < 60 {
        text::decimal(s) + "s ago"@
    } else if s < 3600 {
        text::decimal(s / 60) + "m ago"@
    } else if s < 86400 {
        text::decimal(s / 3600) + "h ago"@
    } else {
        text::decimal(s / 86400) + "d ago"@
    }
}

/// An age of `s` seconds in words.
pub fn humanize_age(s: u64) -> (out: String)
    ensures
        out@ == age_text(s as nat),
{
    if s < 5 {
        return "just now".to_owned();
    }
    let (n, unit): (u64, &str) = if s < 60 {
        (s, "s ago")
    } else if s < 3600 {
        (s / 60, "m ago")
    } else if s < 86400 {
        (s / 3600, "h ago")
    } else {
        (s / 86400, "d ago")
    };
    let mut out = text::number_text(n);
    out.append(unit);
    out
}

/// What the bar says of the last sync.
pub open spec fn sync_label(sync: LastSync) -> Seq<char> {
    match sync {
        LastSync::Never => "never synced"@,
        LastSync::Ago(s) => "Last sync: "@ + age_text(s as nat),
        LastSync::Ahead => "synced just now"@,
    }
}

/// The last sync and the button for a new one.
pub open spec fn sync_html(sync: LastSync) -> Seq<char> {
    "<span class=\"sync\"><span class=\"sync-time\" title=\"refreshes every 5 min\">"@
        + escape::escaped(sync_label(sync))
        + "</span><button class=\"resync\" type=\"button\">Resync</button></span>"@
}

/// The last sync and the button for a new one.
pub fn render_sync_status(sync: LastSync) -> (out: String)
    ensures
        out@ == sync_html(sync),
{
    let label = match sync {
        LastSync::Never => "never synced".to_owned(),
        LastSync::Ago(s) => {
            let mut l = "Last sync: ".to_owned();
            l.append(humanize_age(s).as_str());
            l
        },
        LastSync::Ahead => "synced just now".to_owned(),
    };
    let mut out =
        "<span class=\"sync\"><span class=\"sync-time\" title=\"refreshes every 5 min\">".to_owned();
    out.append(escape::html_escape(label.as_str()).as_str());
    out.append("</span><button class=\"resync\" type=\"button\">Resync</button></span>");
    out
}

/// How a link of the bar is marked.
pub open spec fn active_class(here: bool) -> Seq<char> {
    if here {
        " active"@
    } else {
        ""@
    }
}

/// The bar at the top of a page.
pub open spec fn nav_html(active: Section, sync: LastSync) -> Seq<char> {
    "<nav class=\"top\"><a class=\"brand\" href=\"/\">branchd</a><a class=\"navlink"@ + active_class(
        active == Section::Workspaces,
    ) + "\" href=\"/\">workspaces</a><a class=\"navlink"@ + active_class(active == Section::Sources)
        + "\" href=\"/sources\">sources</a>"@ + sync_html(sync) + "</nav>\n"@
}

/// The bar at the top of a page of the section `active`.
pub fn render_nav(active: Section, sync: LastSync) -> (out: String)
    ensures
        out@ == nav_html(active, sync),
{
    let mut out =
        "<nav class=\"top\"><a class=\"brand\" href=\"/\">branchd</a><a class=\"navlink".to_owned();
    out.append(
        if active == Section::Workspaces {
            " active"
        } else {
            ""
        },
    );
    out.append("\" href=\"/\">workspaces</a><a class=\"navlink");
    out.append(
        if active == Section::Sources {
            " active"
        } else {
            ""
        },
    );
    out.append("\" href=\"/sources\">sources</a>");
    out.append(render_sync_status(sync).as_str());
    out.append("</nav>\n");
    out
}

/// The switches that show or hide drafts and empty commits.
pub const CONTROLS: &'static str = "<div class=\"controls\">\
    <label><input type=\"checkbox\" id=\"show-drafts\"> show drafts</label>\
    <label><input type=\"checkbox\" id=\"show-empty\"> show empty</label>\
    </div>\n";

/// The page that shows an error.
pub open spec fn error_html(msg: Seq<char>) -> Seq<char> {
    template::PAGE_HEAD@ + "<h1>branchd</h1><pre class=\"err\">"@ + escape::escaped(msg) + "</pre>"@
        + template::PAGE_TAIL@
}

/// The page that shows an error.
pub fn error_page(msg: &str) -> (out: String)
    ensures
        out@ == error_html(msg@),
{
    let mut out = template::PAGE_HEAD.to_owned();
    out.append("<h1>branchd</h1><pre class=\"err\">");
    out.append(escape::html_escape(msg).as_str());
    out.append("</pre>");
    out.append(template::PAGE_TAIL);
    out
}

/// The button that copies `md`, and `md` itself, hidden; nothing where `md` is blank.
pub open spec fn copy_html(id: Seq<char>, md: Seq<char>) -> Seq<char> {
    if text::trimmed(md).len() == 0 {
        seq![]
    } else {
        "<div class=\"copy-wrap\"><button class=\"copy-md\" type=\"button\" data-target=\""@ + id
            + "\">Copy as Markdown</button><pre id=\""@ + id + "\" hidden>"@ + escape::escaped(md)
            + "</pre></div>\n"@
    }
}

/// The button that copies `markdown`; `id` is to be the only one of its kind on the page.
pub fn render_copy_button(id: &str, markdown: &str) -> (out: String)
    ensures
        out@ == copy_html(id@, markdown@),
{
    let chars = text::chars_of(markdown);
    if text::trim(chars.as_slice()).len() == 0 {
        return String::new();
    }
    let mut out =
        "<div class=\"copy-wrap\"><button class=\"copy-md\" type=\"button\" data-target=\"".to_owned();
    out.append(id);
    out.append("\">Copy as Markdown</button><pre id=\"");
    out.append(id);
    out.append("\" hidden>");
    out.append(escape::html_escape(markdown).as_str());
    out.append("</pre></div>\n");
    out
}

// ---------------------------------------------------------------------------------------------
// Lines of a log

/// Which of `branches` to show: each once, and not the one to hide.
pub open spec fn chip_branches(branches: Seq<Seq<char>>, hide: Option<Seq<char>>) -> Seq<Seq<char>>
    decreases branches.len(),
{
    if branches.len() == 0 {
        seq![]
    } else {
        let before = chip_branches(branches.drop_last(), hide);
        let b = branches.last();
        if hide == Some(b) || before.contains(b) {
            before
        } else {
            before.push(b)
        }
    }
}

/// The link to a workspace.
pub open spec fn chip_html(branch: Seq<char>) -> Seq<char> {
    " <a class=\"wschip\" href=\"/w/"@ + escape::path_escaped(vstd::utf8::encode_utf8(branch))
        + "\">"@ + escape::escaped(branch) + "</a>"@
}

/// The links to several workspaces.
pub open spec fn chips_html(branches: Seq<Seq<char>>) -> Seq<char>
    decreases branches.len(),
{
    if branches.len() == 0 {
        seq![]
    } else {
        chips_html(branches.drop_last()) + chip_html(branches.last())
    }
}

/// A page never links the branch that it hides; every other branch is linked, once.
pub proof fn law_chips(branches: Seq<Seq<char>>, hide: Option<Seq<char>>)
    ensures
        chip_branches(branches, hide).no_duplicates(),
        forall|b: Seq<char>| #[trigger]
            chip_branches(branches, hide).contains(b) <==> branches.contains(b) && hide != Some(b),
    decreases branches.len(),
{
    if branches.len() > 0 {
        let t = branches.drop_last();
        law_chips(t, hide);
        let before = chip_branches(t, hide);
        let now = chip_branches(branches, hide);
        assert forall|b: Seq<char>| #[trigger]
            now.contains(b) <==> branches.contains(b) && hide != Some(b) by {
            if branches.contains(b) {
                let k = choose|k: int| 0 <= k < branches.len() && branches[k] == b;
                if k < t.len() {
                    assert(t[k] == b);
                    assert(t.contains(b));
                }
            }
            if t.contains(b) {
                let k = choose|k: int| 0 <= k < t.len() && t[k] == b;
                assert(branches[k] == b);
            }
            if before.contains(b) {
                let k = choose|k: int| 0 <= k < before.len() && before[k] == b;
                assert(now[k] == b);
            }
            if now.contains(b) && !before.contains(b) {
                let k = choose|k: int| 0 <= k < now.len() && now[k] == b;
                assert(k == before.len());
                assert(branches[branches.len() - 1] == b);
            }
            if b == branches.last() && hide != Some(b) && !before.contains(b) {
                assert(now[now.len() - 1] == b);
            }
        }
    }
}

/// The content of an optional text.
pub open spec fn opt_text(s: Option<&str>) -> Option<Seq<char>> {
    match s {
        Some(t) => Some(t@),
        None => None,
    }
}

fn holds_text(v: &Vec<String>, s: &str) -> (b: bool)
    ensures
        b == v.deep_view().contains(s@),
{
    let ghost all = v.deep_view();
    let mut i: usize = 0;
    while i < v.len()
        invariant
            i <= v.len(),
            all == v.deep_view(),
            forall|j: int| 0 <= j < i ==> #[trigger] all[j] != s@,
        decreases v.len() - i,
    {
        assert(all[i as int] == v@[i as int]@);
        if text::same_text(v[i].as_str(), s) {
            return true;
        }
        i += 1;
    }
    false
}

/// The links to the workspaces that hold the commit `commit_id`: each workspace once, though the
/// commit may stand in several of its repositories, and not the one on the branch `hide`.
pub fn render_ws_chips(tags: &CommitTags, commit_id: &str, hide: Option<&str>) -> (out: String)
    ensures
        out@ == chips_html(
            chip_branches(log_view::branches_of(tags.deep_view(), commit_id@), opt_text(hide)),
        ),
{
    let branches = log_view::branches_with(tags, commit_id);
    let ghost all = branches.deep_view();
    let ghost hv = opt_text(hide);
    let mut seen: Vec<String> = Vec::new();
    let mut out = String::new();
    let mut i: usize = 0;
    assert(seen.deep_view() =~= chip_branches(all.take(0), hv));
    while i < branches.len()
        invariant
            i <= branches.len(),
            all == branches.deep_view(),
            hv == opt_text(hide),
            seen.deep_view() == chip_branches(all.take(i as int), hv),
            out@ == chips_html(seen.deep_view()),
        decreases branches.len() - i,
    {
        let ghost before = seen.deep_view();
        let branch = branches[i].as_str();
        proof {
            assert(all.take(i + 1).drop_last() =~= all.take(i as int));
            assert(all.take(i + 1).last() == branch@);
        }
        let hidden = match hide {
            Some(h) => text::same_text(branch, h),
            None => false,
        };
        i += 1;
        if hidden || holds_text(&seen, branch) {
            continue;
        }
        let mut chip = " <a class=\"wschip\" href=\"/w/".to_owned();
        chip.append(escape::url_path_escape(branch).as_str());
        chip.append("\">");
        chip.append(escape::html_escape(branch).as_str());
        chip.append("</a>");
        out.append(chip.as_str());
        seen.push(branch.to_owned());
        proof {
            assert(seen.deep_view() =~= before.push(branch@));
            assert(before.push(branch@).drop_last() =~= before);
        }
    }
    assert(all.take(i as int) =~= all);
    out
}

/// How the mark of a pull request looks: merged and closed go before draft.
pub open spec fn state_class(c: CommitView) -> Seq<char> {
    match c.pr_state {
        Some(PrState::Merged) => " merged"@,
        Some(PrState::Closed) => " closed"@,
        _ => if markdown::drafted(c) {
            " draft"@
        } else {
            ""@
        },
    }
}

/// The tick of an approved pull request.
pub open spec fn approved_mark(c: CommitView) -> Seq<char> {
    if markdown::approved(c) {
        " <span class=\"check\" title=\"approved\">&#10003;</span>"@
    } else {
        ""@
    }
}

/// The mark of a commit's pull request.
pub open spec fn pr_html(c: CommitView) -> Seq<char> {
    if c.pr_url is Some {
        " <span class=\"pr"@ + state_class(c) + "\">"@ + markdown::label_of(c) + approved_mark(c)
            + "</span>"@
    } else {
        seq![]
    }
}

/// The mark of a commit without changes.
pub open spec fn empty_mark(c: CommitView) -> Seq<char> {
    if c.empty {
        " <span class=\"empty-tag\">empty</span>"@
    } else {
        ""@
    }
}

/// What a row says of a commit.
pub open spec fn commit_html(graph: Seq<char>, c: CommitView) -> Seq<char> {
    "<span class=\"graph\">"@ + escape::escaped(graph) + "</span><code class=\"id\">"@
        + escape::escaped(c.change_id) + "</code> <span class=\"title\">"@ + escape::escaped(
        markdown::title_of(c),
    ) + "</span>"@ + pr_html(c) + empty_mark(c)
}

/// The same, as a link to the pull request where there is one.
pub open spec fn linked_html(graph: Seq<char>, c: CommitView) -> Seq<char> {
    match c.pr_url {
        Some(url) => "<a class=\"linked\" href=\""@ + escape::escaped(url)
            + "\" target=\"_blank\">"@ + commit_html(graph, c) + "</a>"@,
        None => commit_html(graph, c),
    }
}

/// How a switch of a row is spelled.
pub open spec fn flag(b: bool) -> Seq<char> {
    if b {
        "true"@
    } else {
        "false"@
    }
}

/// One row of a log.
pub open spec fn row_html(l: LogLineView, tags: Tags, hide: Option<Seq<char>>) -> Seq<char> {
    match l.commit {
        None => "<div class=\"row connector\"><span class=\"graph\">"@ + escape::escaped(l.graph)
            + "</span></div>\n"@,
        Some(c) => "<div class=\"row commit\" data-empty=\""@ + flag(c.empty) + "\" data-draft=\""@
            + flag(markdown::drafted(c)) + "\">"@ + linked_html(l.graph, c) + chips_html(
            chip_branches(log_view::branches_of(tags, c.commit_id), hide),
        ) + "</div>\n"@,
    }
}

/// The rows of a log.
pub open spec fn rows_html(lines: Seq<LogLineView>, tags: Tags, hide: Option<Seq<char>>) -> Seq<char>
    decreases lines.len(),
{
    if lines.len() == 0 {
        seq![]
    } else {
        rows_html(lines.drop_last(), tags, hide) + row_html(lines.last(), tags, hide)
    }
}

fn render_pr(c: &Commit) -> (out: String)
    ensures
        out@ == pr_html(c.deep_view()),
{
    if c.pr_url.is_none() {
        return String::new();
    }
    let class: &str = match c.pr_state {
        Some(PrState::Merged) => " merged",
        Some(PrState::Closed) => " closed",
        _ => if markdown::is_draft(c) {
            " draft"
        } else {
            ""
        },
    };
    let mut out = " <span class=\"pr".to_owned();
    out.append(class);
    out.append("\">");
    out.append(markdown::pr_label(c).as_str());
    out.append(
        if markdown::is_approved(c) {
            " <span class=\"check\" title=\"approved\">&#10003;</span>"
        } else {
            ""
        },
    );
    out.append("</span>");
    out
}

fn render_commit(graph: &str, c: &Commit) -> (out: String)
    ensures
        out@ == linked_html(graph@, c.deep_view()),
{
    let mut inner = "<span class=\"graph\">".to_owned();
    inner.append(escape::html_escape(graph).as_str());
    inner.append("</span><code class=\"id\">");
    inner.append(escape::html_escape(c.change_id.as_str()).as_str());
    inner.append("</code> <span class=\"title\">");
    inner.append(escape::html_escape(markdown::display_title(c)).as_str());
    inner.append("</span>");
    inner.append(render_pr(c).as_str());
    inner.append(
        if c.empty {
            " <span class=\"empty-tag\">empty</span>"
        } else {
            ""
        },
    );
    match &c.pr_url {
        Some(url) => {
            let mut out = "<a class=\"linked\" href=\"".to_owned();
            out.append(escape::html_escape(url.as_str()).as_str());
            out.append("\" target=\"_blank\">");
            out.append(inner.as_str());
            out.append("</a>");
            out
        },
        None => inner,
    }
}

/// One row of a log: the graph, and the commit with its pull request, a link to it, and links to
/// the workspaces that hold it, but for the one on the branch `hide_branch`.
pub fn render_log_line(line: &LogLine, tags: &CommitTags, hide_branch: Option<&str>) -> (out: String)
    ensures
        out@ == row_html(line.deep_view(), tags.deep_view(), opt_text(hide_branch)),
{
    match &line.commit {
        None => {
            let mut out = "<div class=\"row connector\"><span class=\"graph\">".to_owned();
            out.append(escape::html_escape(line.graph.as_str()).as_str());
            out.append("</span></div>\n");
            out
        },
        Some(c) => {
            let mut out = "<div class=\"row commit\" data-empty=\"".to_owned();
            out.append(
                if c.empty {
                    "true"
                } else {
                    "false"
                },
            );
            out.append("\" data-draft=\"");
            out.append(
                if markdown::is_draft(c) {
                    "true"
                } else {
                    "false"
                },
            );
            out.append("\">");
            out.append(render_commit(line.graph.as_str(), c).as_str());
            out.append(render_ws_chips(tags, c.commit_id.as_str(), hide_branch).as_str());
            out.append("</div>\n");
            out
        },
    }
}

/// The rows of a log.
pub fn render_log_lines(lines: &Vec<LogLine>, tags: &CommitTags, hide_branch: Option<&str>) -> (out:
    String)
    ensures
        out@ == rows_html(lines.deep_view(), tags.deep_view(), opt_text(hide_branch)),
{
    let ghost all = lines.deep_view();
    let mut out = String::new();
    let mut i: usize = 0;
    while i < lines.len()
        invariant
            i <= lines.len(),
            all == lines.deep_view(),
            out@ == rows_html(all.take(i as int), tags.deep_view(), opt_text(hide_branch)),
        decreases lines.len() - i,
    {
        proof {
            assert(all.take(i + 1).drop_last() =~= all.take(i as int));
            assert(all.take(i + 1).last() == lines@[i as int].deep_view());
        }
        out.append(render_log_line(&lines[i], tags, hide_branch).as_str());
        i += 1;
    }
    assert(all.take(i as int) =~= all);
    out
}

// ---------------------------------------------------------------------------------------------
// What the pages say, in terms of what is known

/// An age is given in the largest unit of which a whole one has passed, rounded down; below five
/// seconds it is not given.
pub proof fn law_age(s: nat) -> (n: nat)
    ensures
        s < 5 ==> age_text(s) == "just now"@,
        5 <= s < 60 ==> age_text(s) == text::decimal(s) + "s ago"@,
        60 <= s < 60 * 60 ==> age_text(s) == text::decimal(n) + "m ago"@ && 60 * n <= s < 60 * (n + 1),
        60 * 60 <= s < 24 * 60 * 60 ==> age_text(s) == text::decimal(n) + "h ago"@ && 60 * 60 * n
            <= s < 60 * 60 * (n + 1),
        24 * 60 * 60 <= s ==> age_text(s) == text::decimal(n) + "d ago"@ && 24 * 60 * 60 * n <= s
            < 24 * 60 * 60 * (n + 1),
{
    if s < 3600 {
        s / 60
    } else if s < 86400 {
        s / 3600
    } else {
        s / 86400
    }
}

proof fn lemma_occurs(s: Seq<char>, a: Seq<char>, p: Seq<char>, b: Seq<char>)
    requires
        s == a + p + b,
    ensures
        text::occurs(s, p),
{
    text::law_occurs(s, p);
    assert(s == a + p + b);
}

/// The page says when the pull requests were last asked for.
pub proof fn law_sync(sync: LastSync)
    ensures
        match sync {
            LastSync::Never => text::occurs(sync_html(sync), escape::escaped("never synced"@)),
            LastSync::Ago(s) => text::occurs(
                sync_html(sync),
                escape::escaped("Last sync: "@ + age_text(s as nat)),
            ),
            LastSync::Ahead => text::occurs(sync_html(sync), escape::escaped("synced just now"@)),
        },
{
    let a =
        "<span class=\"sync\"><span class=\"sync-time\" title=\"refreshes every 5 min\">"@;
    let b = "</span><button class=\"resync\" type=\"button\">Resync</button></span>"@;
    lemma_occurs(sync_html(sync), a, escape::escaped(sync_label(sync)), b);
}

/// Of the two links at the top the one to the page's own section is marked, and the other is not;
/// and the page says when the pull requests were last asked for.
pub proof fn law_nav(active: Section, sync: LastSync)
    ensures
        text::occurs(nav_html(active, sync), sync_html(sync)),
        match active {
            Section::Workspaces => text::occurs(
                nav_html(active, sync),
                " active"@ + "\" href=\"/\">workspaces</a><a class=\"navlink"@
                    + "\" href=\"/sources\">sources</a>"@,
            ),
            Section::Sources => text::occurs(
                nav_html(active, sync),
                "\" href=\"/\">workspaces</a><a class=\"navlink"@ + " active"@
                    + "\" href=\"/sources\">sources</a>"@,
            ),
        },
{
    let html = nav_html(active, sync);
    let top =
        "<nav class=\"top\"><a class=\"brand\" href=\"/\">branchd</a><a class=\"navlink"@;
    let between = "\" href=\"/\">workspaces</a><a class=\"navlink"@;
    let behind = "\" href=\"/sources\">sources</a>"@;
    let end = sync_html(sync) + "</nav>\n"@;
    assert(""@ =~= Seq::<char>::empty()) by {
        reveal_strlit("");
    }
    let w = active_class(active == Section::Workspaces);
    let s = active_class(active == Section::Sources);
    assert(html =~= (top + w + between + s + behind) + sync_html(sync) + "</nav>\n"@);
    lemma_occurs(html, top + w + between + s + behind, sync_html(sync), "</nav>\n"@);
    match active {
        Section::Workspaces => {
            assert(html =~= top + (" active"@ + between + behind) + end);
            lemma_occurs(html, top, " active"@ + between + behind, end);
        },
        Section::Sources => {
            assert(html =~= top + (between + " active"@ + behind) + end);
            lemma_occurs(html, top, between + " active"@ + behind, end);
        },
    }
}

/// An error page gives the message, escaped.
pub proof fn law_error_page(msg: Seq<char>)
    ensures
        text::occurs(error_html(msg), escape::escaped(msg)),
{
    let a = template::PAGE_HEAD@ + "<h1>branchd</h1><pre class=\"err\">"@;
    let b = "</pre>"@ + template::PAGE_TAIL@;
    assert(error_html(msg) =~= a + escape::escaped(msg) + b);
    lemma_occurs(error_html(msg), a, escape::escaped(msg), b);
}

/// Markdown is offered for copying unless it is all white space: escaped, below an ID to which the
/// button points.
pub proof fn law_copy_button(id: Seq<char>, md: Seq<char>, i: int)
    ensures
        (forall|k: int| 0 <= k < md.len() ==> text::is_white(#[trigger] md[k])) ==> copy_html(
            id,
            md,
        ).len() == 0,
        0 <= i < md.len() && !text::is_white(md[i]) ==> text::occurs(
            copy_html(id, md),
            id + "\" hidden>"@ + escape::escaped(md),
        ),
        0 <= i < md.len() && !text::is_white(md[i]) ==> text::occurs(
            copy_html(id, md),
            id + "\">Copy as Markdown</button><pre id=\""@ + id,
        ),
{
    if forall|k: int| 0 <= k < md.len() ==> text::is_white(#[trigger] md[k]) {
        let (front, back) = text::law_trimmed(md);
        if text::trimmed(md).len() > 0 {
            assert(md[front.len() as int] == text::trimmed(md)[0]);
        }
    }
    if 0 <= i < md.len() && !text::is_white(md[i]) {
        text::lemma_not_all_white(md, i);
        let html = copy_html(id, md);
        let a =
            "<div class=\"copy-wrap\"><button class=\"copy-md\" type=\"button\" data-target=\""@;
        let b = "\">Copy as Markdown</button><pre id=\""@;
        let body = id + "\" hidden>"@ + escape::escaped(md);
        let end = "</pre></div>\n"@;
        assert(html =~= (a + id + b) + body + end);
        lemma_occurs(html, a + id + b, body, end);
        let rest = "\" hidden>"@ + escape::escaped(md) + end;
        assert(html =~= a + (id + b + id) + rest);
        lemma_occurs(html, a, id + b + id, rest);
    }
}

/// The branches that get a chip come in the order in which they are first listed.
pub proof fn law_chips_in_order(branches: Seq<Seq<char>>, hide: Option<Seq<char>>, b: Seq<char>)
    ensures
        chip_branches(Seq::empty(), hide).len() == 0,
        hide == Some(b) || branches.contains(b) ==> chip_branches(branches.push(b), hide)
            == chip_branches(branches, hide),
        hide != Some(b) && !branches.contains(b) ==> chip_branches(branches.push(b), hide)
            == chip_branches(branches, hide).push(b),
{
    assert(branches.push(b).drop_last() =~= branches);
    assert(branches.push(b).last() == b);
    law_chips(branches, hide);
    assert(chip_branches(branches, hide).contains(b) <==> branches.contains(b) && hide != Some(b));
}

/// Chips stand one behind the other; each links to its workspace and shows its branch, escaped.
pub proof fn law_chips_html(branches: Seq<Seq<char>>, b: Seq<char>)
    ensures
        chips_html(Seq::empty()).len() == 0,
        ({
            let before = chips_html(branches);
            let all = chips_html(branches.push(b));
            let chip = all.skip(before.len() as int);
            &&& all == before + chip
            &&& text::occurs(
                chip,
                escape::path_escaped(vstd::utf8::encode_utf8(b)) + "\">"@ + escape::escaped(b),
            )
        }),
{
    assert(branches.push(b).drop_last() =~= branches);
    assert(branches.push(b).last() == b);
    let before = chips_html(branches);
    let all = chips_html(branches.push(b));
    assert(all == before + chip_html(b));
    assert(all.skip(before.len() as int) =~= chip_html(b));
    let body = escape::path_escaped(vstd::utf8::encode_utf8(b)) + "\">"@ + escape::escaped(b);
    assert(chip_html(b) =~= " <a class=\"wschip\" href=\"/w/"@ + body + "</a>"@);
    lemma_occurs(chip_html(b), " <a class=\"wschip\" href=\"/w/"@, body, "</a>"@);
}

/// How a pull request is marked: merged or closed where it is, otherwise a draft where it is one.
pub proof fn law_state_class(c: CommitView)
    ensures
        c.pr_state == Some(PrState::Merged) ==> state_class(c) == " merged"@,
        c.pr_state == Some(PrState::Closed) ==> state_class(c) == " closed"@,
        c.pr_state != Some(PrState::Merged) && c.pr_state != Some(PrState::Closed) && c.is_draft
            == Some(true) ==> state_class(c) == " draft"@,
        c.pr_state != Some(PrState::Merged) && c.pr_state != Some(PrState::Closed) && c.is_draft
            != Some(true) ==> state_class(c).len() == 0,
{
    reveal_strlit("");
}

/// A pull request is checked where it is approved, whatever its state, and nowhere else.
pub proof fn law_approved_mark(c: CommitView)
    ensures
        c.review_decision == Some(crate::gh::ReviewDecision::Approved) ==> approved_mark(c)
            == " <span class=\"check\" title=\"approved\">&#10003;</span>"@,
        c.review_decision != Some(crate::gh::ReviewDecision::Approved) ==> approved_mark(c).len()
            == 0,
{
    reveal_strlit("");
}

/// A pull request's chip is there where the commit has a URL. It carries the mark of its state, and
/// shows its label and behind that the check.
pub proof fn law_pr_chip(c: CommitView)
    ensures
        c.pr_url is None ==> pr_html(c).len() == 0,
        c.pr_url is Some ==> (" <span class=\"pr"@ + state_class(c) + "\">"@).is_prefix_of(
            pr_html(c),
        ) && (markdown::label_of(c) + approved_mark(c) + "</span>"@).is_suffix_of(pr_html(c)),
{
    if c.pr_url is Some {
        lemma_chip_in_two(
            " <span class=\"pr"@ + state_class(c) + "\">"@,
            markdown::label_of(c),
            approved_mark(c),
            "</span>"@,
        );
    }
}

proof fn lemma_chip_in_two(a: Seq<char>, b: Seq<char>, c: Seq<char>, d: Seq<char>)
    ensures
        a.is_prefix_of(a + b + c + d),
        (b + c + d).is_suffix_of(a + b + c + d),
{
    let html = a + b + c + d;
    let rest = b + c + d;
    assert(html =~= a + rest);
    text::law_prefix_and_suffix(html, a, rest);
    text::law_prefix_and_suffix(html, rest, a);
}

/// A commit's line shows the graph, the change ID and the title, escaped, in this order, then the
/// chip of its pull request; behind that it says where the commit is empty.
pub proof fn law_commit_line(graph: Seq<char>, c: CommitView) -> (parts: (
    Seq<char>,
    Seq<char>,
    Seq<char>,
    Seq<char>,
))
    ensures
        commit_html(graph, c) == parts.0 + escape::escaped(graph) + parts.1 + escape::escaped(
            c.change_id,
        ) + parts.2 + escape::escaped(markdown::title_of(c)) + parts.3 + pr_html(c) + (if c.empty {
            " <span class=\"empty-tag\">empty</span>"@
        } else {
            Seq::empty()
        }),
{
    assert(""@ =~= Seq::<char>::empty()) by {
        reveal_strlit("");
    }
    (
        "<span class=\"graph\">"@,
        "</span><code class=\"id\">"@,
        "</code> <span class=\"title\">"@,
        "</span>"@,
    )
}

/// A commit's line is a link to its pull request where it has one, and plain otherwise.
pub proof fn law_commit_link(graph: Seq<char>, c: CommitView)
    ensures
        match c.pr_url {
            Some(url) => ("<a class=\"linked\" href=\""@ + escape::escaped(url)
                + "\" target=\"_blank\">"@).is_prefix_of(linked_html(graph, c)) && (commit_html(
                graph,
                c,
            ) + "</a>"@).is_suffix_of(linked_html(graph, c)),
            None => linked_html(graph, c) == commit_html(graph, c),
        },
{
    match c.pr_url {
        Some(url) => {
            let a = "<a class=\"linked\" href=\""@ + escape::escaped(url)
                + "\" target=\"_blank\">"@;
            let b = commit_html(graph, c) + "</a>"@;
            assert(linked_html(graph, c) =~= a + b);
            text::law_prefix_and_suffix(a + b, a, b);
            text::law_prefix_and_suffix(a + b, b, a);
        },
        None => {},
    }
}

/// A row says of its commit whether it is empty and whether it is a draft, so that both can be
/// hidden; it shows the commit's line and the chips of the branches that hold it. A row without a
/// commit shows the graph.
pub proof fn law_row(l: LogLineView, tags: Tags, hide: Option<Seq<char>>)
    ensures
        match l.commit {
            None => text::occurs(row_html(l, tags, hide), escape::escaped(l.graph)) && "<div class=\"row connector\"><span class=\"graph\">"@.is_prefix_of(
                row_html(l, tags, hide),
            ),
            Some(c) => {
                let empty = if c.empty {
                    "true"@
                } else {
                    "false"@
                };
                let draft = if c.is_draft == Some(true) {
                    "true"@
                } else {
                    "false"@
                };
                let body = linked_html(l.graph, c) + chips_html(
                    chip_branches(log_view::branches_of(tags, c.commit_id), hide),
                ) + "</div>\n"@;
                let head = "<div class=\"row commit\" data-empty=\""@ + empty + "\" data-draft=\""@
                    + draft + "\">"@;
                head.is_prefix_of(row_html(l, tags, hide)) && body.is_suffix_of(
                    row_html(l, tags, hide),
                ) && row_html(l, tags, hide).len() == head.len() + body.len()
            },
        },
{
    let html = row_html(l, tags, hide);
    match l.commit {
        None => {
            let a = "<div class=\"row connector\"><span class=\"graph\">"@;
            let b = "</span></div>\n"@;
            lemma_occurs(html, a, escape::escaped(l.graph), b);
            assert(html =~= a + (escape::escaped(l.graph) + b));
            text::law_prefix_and_suffix(html, a, escape::escaped(l.graph) + b);
        },
        Some(c) => {
            let head = "<div class=\"row commit\" data-empty=\""@ + flag(c.empty)
                + "\" data-draft=\""@ + flag(c.is_draft == Some(true)) + "\">"@;
            let body = linked_html(l.graph, c) + chips_html(
                chip_branches(log_view::branches_of(tags, c.commit_id), hide),
            ) + "</div>\n"@;
            assert(html =~= head + body);
            text::law_prefix_and_suffix(html, head, body);
            text::law_prefix_and_suffix(html, body, head);
        },
    }
}

/// The rows of a log stand one behind the other.
pub proof fn law_rows(
    a: Seq<LogLineView>,
    b: Seq<LogLineView>,
    l: LogLineView,
    tags: Tags,
    hide: Option<Seq<char>>,
)
    ensures
        rows_html(a + b, tags, hide) == rows_html(a, tags, hide) + rows_html(b, tags, hide),
        rows_html(seq![l], tags, hide) == row_html(l, tags, hide),
    decreases b.len(),
{
    let one = seq![l];
    assert(one.drop_last() =~= Seq::empty());
    assert(rows_html(one.drop_last(), tags, hide) =~= Seq::empty());
    assert(rows_html(one, tags, hide) =~= row_html(l, tags, hide));
    if b.len() == 0 {
        assert(a + b =~= a);
        assert(rows_html(a, tags, hide) + rows_html(b, tags, hide) =~= rows_html(a, tags, hide));
    } else {
        let t = b.drop_last();
        law_rows(a, t, l, tags, hide);
        assert((a + b).drop_last() =~= a + t);
        assert((a + b).last() == b.last());
        assert(rows_html(a + b, tags, hide) =~= rows_html(a, tags, hide) + rows_html(b, tags, hide));
    }
}

} // verus!
