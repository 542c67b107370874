//! Pull requests as lists in Markdown, to be pasted elsewhere.
use vstd::prelude::*;

use crate::gh::PrState;
use crate::gh::ReviewDecision;
use crate::jj::Commit;
use crate::jj::CommitView;
use crate::jj::LogLine;
use crate::jj::LogLineView;
use crate::log_view;
use crate::log_view::CommitTags;
use crate::log_view::Tags;
use crate::order;
use crate::text;

verus! {

/// Whether a commit's pull request is known to be a draft.
pub open spec fn drafted(c: CommitView) -> bool {
    c.is_draft == Some(true)
}

/// Whether a commit's pull request is known to be approved.
pub open spec fn approved(c: CommitView) -> bool {
    c.review_decision == Some(ReviewDecision::Approved)
}

/// Whether a commit's pull request is known to be a draft.
pub fn is_draft(c: &Commit) -> (b: bool)
    ensures
        b == drafted(c.deep_view()),
        b <==> c.is_draft == Some(true),
{
    match c.is_draft {
        Some(d) => d,
        None => false,
    }
}

/// Whether a commit's pull request is known to be approved.
pub fn is_approved(c: &Commit) -> (b: bool)
    ensures
        b == approved(c.deep_view()),
        b <==> c.review_decision == Some(ReviewDecision::Approved),
{
    match c.review_decision {
        Some(d) => d == ReviewDecision::Approved,
        None => false,
    }
}

/// The tag behind a pull request: closed and merged go before all else.
pub open spec fn status_tag(c: CommitView) -> Seq<char> {
    match c.pr_state {
        Some(PrState::Closed) => " `closed`"@,
        Some(PrState::Merged) => " `merged`"@,
        _ => (if approved(c) {
            " \u{2705}"@
        } else {
            seq![]
        }) + (if drafted(c) {
            " `draft`"@
        } else {
            seq![]
        }),
    }
}

/// The tag behind a pull request. The mark of a draft comes last, where readers of the list look
/// for it.
pub fn md_status_tag(c: &Commit) -> (out: String)
    ensures
        out@ == status_tag(c.deep_view()),
{
    match c.pr_state {
        Some(PrState::Closed) => " `closed`".to_owned(),
        Some(PrState::Merged) => " `merged`".to_owned(),
        _ => {
            let mut s = String::new();
            if is_approved(c) {
                s.append(" \u{2705}");
            }
            if is_draft(c) {
                s.append(" `draft`");
            }
            assert(s@ =~= status_tag(c.deep_view()));
            s
        },
    }
}

/// The title to show of a commit.
pub open spec fn title_of(c: CommitView) -> Seq<char> {
    match c.pr_title {
        Some(t) if t.len() > 0 => t,
        _ => if c.title.len() == 0 {
            "(no description)"@
        } else {
            c.title
        },
    }
}

/// The title to show of a commit: that of its pull request where it is known, which goes before
/// the first line of the description; that one may be stale.
pub fn display_title<'a>(c: &'a Commit) -> (out: &'a str)
    ensures
        out@ == title_of(c.deep_view()),
{
    if let Some(t) = &c.pr_title {
        if !text::is_empty(t.as_str()) {
            return t.as_str();
        }
    }
    if text::is_empty(c.title.as_str()) {
        "(no description)"
    } else {
        c.title.as_str()
    }
}

/// How a pull request is called: by its number where there is one.
pub open spec fn label_of(c: CommitView) -> Seq<char> {
    match c.pr_number {
        Some(n) => "#"@ + text::decimal(n as nat),
        None => "PR"@,
    }
}

/// How a pull request is called.
pub fn pr_label(c: &Commit) -> (out: String)
    ensures
        out@ == label_of(c.deep_view()),
{
    match c.pr_number {
        Some(n) => {
            let mut out = "#".to_owned();
            out.append(text::number_text(n).as_str());
            out
        },
        None => "PR".to_owned(),
    }
}

/// The entry of a commit with the pull request `url`, up to what follows its status.
pub open spec fn bullet(c: CommitView, url: Seq<char>) -> Seq<char> {
    "- ["@ + label_of(c) + "]("@ + url + ") "@ + title_of(c) + status_tag(c)
}

fn pr_bullet(c: &Commit, url: &String) -> (out: String)
    ensures
        out@ == bullet(c.deep_view(), url@),
{
    let mut out = "- [".to_owned();
    out.append(pr_label(c).as_str());
    out.append("](");
    out.append(url.as_str());
    out.append(") ");
    out.append(display_title(c));
    out.append(md_status_tag(c).as_str());
    out
}

/// The entry of a draft that is not closed or merged ends in the mark of a draft; that of a closed
/// or merged one ends in the mark of that. In the lists of workspaces, where nothing follows on the
/// line, drafts can so be told by the ends of their lines; in the list of a source the branches that
/// hold the commit may follow.
pub proof fn law_draft_mark_is_last(c: CommitView, url: Seq<char>)
    ensures
        c.pr_state == Some(PrState::Closed) ==> " `closed`"@.is_suffix_of(bullet(c, url)),
        c.pr_state == Some(PrState::Merged) ==> " `merged`"@.is_suffix_of(bullet(c, url)),
        drafted(c) && c.pr_state != Some(PrState::Closed) && c.pr_state != Some(PrState::Merged)
            ==> " `draft`"@.is_suffix_of(bullet(c, url)),
{
    let b = bullet(c, url);
    let t = status_tag(c);
    assert(b.skip(b.len() - t.len()) =~= t);
    if drafted(c) && c.pr_state != Some(PrState::Closed) && c.pr_state != Some(PrState::Merged) {
        let d = " `draft`"@;
        assert(t.skip(t.len() - d.len()) =~= d);
        assert(b.skip(b.len() - d.len()) =~= d);
    }
}

// ---------------------------------------------------------------------------------------------
// Workspaces

/// Whether a line carries a commit with a pull request.
pub open spec fn has_pr(l: LogLineView) -> bool {
    match l.commit {
        Some(c) => c.pr_url is Some,
        None => false,
    }
}

/// The entries of the commits with pull requests, one to a line.
pub open spec fn bullets(lines: Seq<LogLineView>) -> Seq<char>
    decreases lines.len(),
{
    if lines.len() == 0 {
        seq![]
    } else {
        let before = bullets(lines.drop_last());
        let l = lines.last();
        if has_pr(l) {
            before + (bullet(l.commit->0, l.commit->0.pr_url->0) + "\n"@)
        } else {
            before
        }
    }
}

/// A repository's name and its pull requests; nothing where it has none.
pub open spec fn repo_md(name: Seq<char>, lines: Seq<LogLineView>, indent: bool) -> Seq<char> {
    if exists|i: int| 0 <= i < lines.len() && has_pr(#[trigger] lines[i]) {
        (if indent {
            "*"@ + name + "*"@
        } else {
            "**"@ + name + "**"@
        }) + "\n"@ + bullets(lines) + "\n"@
    } else {
        seq![]
    }
}

/// The list of one repository: an entry for each commit that has a pull request, under the
/// repository's name. Where no commit has one, there is no list.
pub fn build_repo_md(name: &str, lines: &Vec<LogLine>, indent: bool) -> (out: String)
    ensures
        out@ == repo_md(name@, lines.deep_view(), indent),
{
    let ghost all = lines.deep_view();
    let mut list = String::new();
    let mut any: bool = false;
    let mut i: usize = 0;
    while i < lines.len()
        invariant
            i <= lines.len(),
            all == lines.deep_view(),
            list@ == bullets(all.take(i as int)),
            any == exists|j: int| 0 <= j < i && has_pr(#[trigger] all[j]),
        decreases lines.len() - i,
    {
        proof {
            assert(all.take(i + 1).drop_last() =~= all.take(i as int));
            assert(all.take(i + 1).last() == lines@[i as int].deep_view());
            assert(all[i as int] == lines@[i as int].deep_view());
        }
        if let Some(c) = &lines[i].commit {
            if let Some(url) = &c.pr_url {
                let mut entry = pr_bullet(c, url);
                entry.append("\n");
                list.append(entry.as_str());
                any = true;
                assert(has_pr(all[i as int]));
            }
        }
        i += 1;
    }
    assert(all.take(i as int) =~= all);
    if !any {
        return String::new();
    }
    let mut out = if indent {
        "*".to_owned()
    } else {
        "**".to_owned()
    };
    out.append(name);
    if indent {
        out.append("*");
    } else {
        out.append("**");
    }
    out.append("\n");
    out.append(list.as_str());
    out.append("\n");
    out
}

/// The lists of several repositories, one after the other.
pub open spec fn repo_mds(repos: Seq<(Seq<char>, Seq<LogLineView>)>) -> Seq<char>
    decreases repos.len(),
{
    if repos.len() == 0 {
        seq![]
    } else {
        repo_mds(repos.drop_last()) + repo_md(repos.last().0, repos.last().1, true)
    }
}

/// A workspace's branch and the lists of its repositories.
pub open spec fn workspace_md(
    branch: Seq<char>,
    repos: Seq<(Seq<char>, Seq<LogLineView>)>,
) -> Seq<char> {
    "**"@ + branch + "**\n\n"@ + repo_mds(repos)
}

/// The list of a workspace on `branch`.
pub fn build_workspace_md(branch: &str, repo_lines: &Vec<(String, Vec<LogLine>)>) -> (out: String)
    ensures
        out@ == workspace_md(branch@, repo_lines.deep_view()),
{
    let ghost all = repo_lines.deep_view();
    let mut lists = String::new();
    let mut i: usize = 0;
    while i < repo_lines.len()
        invariant
            i <= repo_lines.len(),
            all == repo_lines.deep_view(),
            lists@ == repo_mds(all.take(i as int)),
        decreases repo_lines.len() - i,
    {
        proof {
            assert(all.take(i + 1).drop_last() =~= all.take(i as int));
            assert(all.take(i + 1).last() == repo_lines@[i as int].deep_view());
        }
        let block = build_repo_md(repo_lines[i].0.as_str(), &repo_lines[i].1, true);
        lists.append(block.as_str());
        i += 1;
    }
    assert(all.take(i as int) =~= all);
    let mut out = "**".to_owned();
    out.append(branch);
    out.append("**\n\n");
    out.append(lists.as_str());
    out
}

// ---------------------------------------------------------------------------------------------
// Sources

/// The branches that hold a commit, as they stand behind its entry.
pub open spec fn branch_suffix(tags: Tags, id: Seq<char>) -> Seq<char> {
    let names = order::sorted_set(log_view::branches_of(tags, id));
    if names.len() == 0 {
        seq![]
    } else {
        " \u{2014} _"@ + text::joined(names, ", "@) + "_"@
    }
}

/// The entries of the commits with pull requests, each with the branches that hold it.
pub open spec fn source_bullets(lines: Seq<LogLineView>, tags: Tags) -> Seq<char>
    decreases lines.len(),
{
    if lines.len() == 0 {
        seq![]
    } else {
        let before = source_bullets(lines.drop_last(), tags);
        let l = lines.last();
        if has_pr(l) {
            before + (bullet(l.commit->0, l.commit->0.pr_url->0) + branch_suffix(
                tags,
                l.commit->0.commit_id,
            ) + "\n"@)
        } else {
            before
        }
    }
}

/// A source repository and its pull requests.
pub open spec fn source_md(
    ns: Seq<char>,
    name: Seq<char>,
    lines: Seq<LogLineView>,
    tags: Tags,
) -> Seq<char> {
    "**"@ + ns + "/"@ + name + "**\n\n"@ + source_bullets(lines, tags)
}

fn suffix_of(tags: &CommitTags, id: &str) -> (out: String)
    ensures
        out@ == branch_suffix(tags.deep_view(), id@),
{
    let names = order::sort_distinct(log_view::branches_with(tags, id));
    if names.len() == 0 {
        return String::new();
    }
    let mut out = " \u{2014} _".to_owned();
    out.append(text::join(&names, ", ").as_str());
    out.append("_");
    out
}

/// The list of a source repository: an entry for each commit that has a pull request, with the
/// branches whose workspaces hold it, in order and each once.
pub fn build_source_md(ns: &str, name: &str, lines: &Vec<LogLine>, tags: &CommitTags) -> (out:
    String)
    ensures
        out@ == source_md(ns@, name@, lines.deep_view(), tags.deep_view()),
{
    let ghost all = lines.deep_view();
    let ghost tv = tags.deep_view();
    let mut list = String::new();
    let mut i: usize = 0;
    while i < lines.len()
        invariant
            i <= lines.len(),
            all == lines.deep_view(),
            tv == tags.deep_view(),
            list@ == source_bullets(all.take(i as int), tv),
        decreases lines.len() - i,
    {
        proof {
            assert(all.take(i + 1).drop_last() =~= all.take(i as int));
            assert(all.take(i + 1).last() == lines@[i as int].deep_view());
        }
        if let Some(c) = &lines[i].commit {
            if let Some(url) = &c.pr_url {
                let mut entry = pr_bullet(c, url);
                entry.append(suffix_of(tags, c.commit_id.as_str()).as_str());
                entry.append("\n");
                list.append(entry.as_str());
            }
        }
        i += 1;
    }
    assert(all.take(i as int) =~= all);
    let mut out = "**".to_owned();
    out.append(ns);
    out.append("/");
    out.append(name);
    out.append("**\n\n");
    out.append(list.as_str());
    out
}

// ---------------------------------------------------------------------------------------------
// What the Markdown says, in terms of what is known of a commit

/// What is marked behind a title: `closed` or `merged` where the pull request is, whatever else is
/// known; otherwise the check mark where it is approved, and behind that `draft` where it is one.
pub proof fn law_status_marks(c: CommitView)
    ensures
        c.pr_state == Some(PrState::Closed) ==> status_tag(c) == " `closed`"@,
        c.pr_state == Some(PrState::Merged) ==> status_tag(c) == " `merged`"@,
        c.pr_state == Some(PrState::Open) || c.pr_state is None ==> {
            &&& c.review_decision != Some(ReviewDecision::Approved) && c.is_draft != Some(true)
                ==> status_tag(c).len() == 0
            &&& c.review_decision == Some(ReviewDecision::Approved) && c.is_draft != Some(true)
                ==> status_tag(c) == " \u{2705}"@
            &&& c.review_decision != Some(ReviewDecision::Approved) && c.is_draft == Some(true)
                ==> status_tag(c) == " `draft`"@
            &&& c.review_decision == Some(ReviewDecision::Approved) && c.is_draft == Some(true)
                ==> status_tag(c) == " \u{2705}"@ + " `draft`"@
        },
{
    assert(Seq::<char>::empty() + Seq::<char>::empty() =~= Seq::<char>::empty());
    assert(Seq::<char>::empty() + " `draft`"@ =~= " `draft`"@);
    assert(" \u{2705}"@ + Seq::<char>::empty() =~= " \u{2705}"@);
}

/// A commit's title is that of its pull request on GitHub, unless that is unknown or empty; then the
/// first line of its description; and a note where that is empty too. It is never empty.
pub proof fn law_title(c: CommitView)
    ensures
        c.pr_title is Some && c.pr_title->0.len() > 0 ==> title_of(c) == c.pr_title->0,
        (c.pr_title is None || c.pr_title->0.len() == 0) && c.title.len() > 0 ==> title_of(c)
            == c.title,
        (c.pr_title is None || c.pr_title->0.len() == 0) && c.title.len() == 0 ==> title_of(c)
            == "(no description)"@,
        title_of(c).len() > 0,
{
    reveal_strlit("(no description)");
}

/// A pull request's label shows its number, which can be read back from it.
pub proof fn law_label(c: CommitView)
    ensures
        match c.pr_number {
            Some(n) => label_of(c)[0] == '#' && text::parsed_number(label_of(c).skip(1)) == Some(n),
            None => label_of(c) == "PR"@,
        },
{
    match c.pr_number {
        Some(n) => {
            reveal_strlit("#");
            text::law_number_is_read_back(n);
            assert(label_of(c).skip(1) =~= text::decimal(n as nat));
        },
        None => {},
    }
}

/// A bullet links the pull request's label to its URL and gives the title behind it, with the marks
/// at the end.
pub proof fn law_bullet(c: CommitView, url: Seq<char>)
    ensures
        ("- ["@ + label_of(c) + "]("@ + url + ") "@).is_prefix_of(bullet(c, url)),
        (title_of(c) + status_tag(c)).is_suffix_of(bullet(c, url)),
        bullet(c, url).len() == ("- ["@ + label_of(c) + "]("@ + url + ") "@).len() + (title_of(c)
            + status_tag(c)).len(),
{
    let a = "- ["@ + label_of(c) + "]("@ + url + ") "@;
    let b = title_of(c) + status_tag(c);
    assert(bullet(c, url) =~= a + b);
    text::law_prefix_and_suffix(a + b, a, b);
    text::law_prefix_and_suffix(a + b, b, a);
}

/// The bullets of a log are those of its lines, one behind the other: a line has one where its
/// commit has a pull request's URL, and the bullet is of that commit and that URL.
pub proof fn law_bullets(a: Seq<LogLineView>, b: Seq<LogLineView>, l: LogLineView)
    ensures
        bullets(a + b) == bullets(a) + bullets(b),
        match l.commit {
            Some(c) => match c.pr_url {
                Some(url) => bullets(seq![l]) == bullet(c, url) + "\n"@,
                None => bullets(seq![l]).len() == 0,
            },
            None => bullets(seq![l]).len() == 0,
        },
    decreases b.len(),
{
    let one = seq![l];
    assert(one.drop_last() =~= Seq::empty());
    assert(bullets(one.drop_last()) =~= Seq::empty());
    assert(one.last() == l);
    if has_pr(l) {
        assert(bullets(one) =~= bullet(l.commit->0, l.commit->0.pr_url->0) + "\n"@);
    }
    if b.len() == 0 {
        assert(a + b =~= a);
        assert(bullets(a) + bullets(b) =~= bullets(a));
    } else {
        let t = b.drop_last();
        law_bullets(a, t, l);
        assert((a + b).drop_last() =~= a + t);
        assert((a + b).last() == b.last());
        assert(bullets(a + b) =~= bullets(a) + bullets(b));
    }
}

/// A repository is left out where none of its commits has a pull request's URL; otherwise its
/// bullets stand between its name, in bold or, below a workspace, in italics, and an empty line.
pub proof fn law_repository_in_markdown(name: Seq<char>, lines: Seq<LogLineView>, indent: bool)
    ensures
        (forall|i: int|
            0 <= i < lines.len() && (#[trigger] lines[i]).commit is Some
                ==> lines[i].commit->0.pr_url is None) ==> repo_md(name, lines, indent).len() == 0,
        forall|i: int|
            0 <= i < lines.len() && (#[trigger] lines[i]).commit is Some
                && lines[i].commit->0.pr_url is Some ==> repo_md(name, lines, indent) == (if indent {
                "*"@ + name + "*"@
            } else {
                "**"@ + name + "**"@
            }) + "\n"@ + bullets(lines) + "\n"@,
{
    if exists|i: int| 0 <= i < lines.len() && has_pr(#[trigger] lines[i]) {
        let i = choose|i: int| 0 <= i < lines.len() && has_pr(#[trigger] lines[i]);
        assert(lines[i].commit is Some && lines[i].commit->0.pr_url is Some);
    }
    assert forall|i: int|
        0 <= i < lines.len() && (#[trigger] lines[i]).commit is Some && lines[i].commit->0.pr_url is Some implies repo_md(
    name, lines, indent) == (if indent {
        "*"@ + name + "*"@
    } else {
        "**"@ + name + "**"@
    }) + "\n"@ + bullets(lines) + "\n"@ by {
        assert(has_pr(lines[i]));
    }
}

/// A workspace's Markdown starts with its branch in bold; the repositories follow, one behind the
/// other.
pub proof fn law_workspace_in_markdown(
    branch: Seq<char>,
    repos: Seq<(Seq<char>, Seq<LogLineView>)>,
    name: Seq<char>,
    lines: Seq<LogLineView>,
)
    ensures
        workspace_md(branch, Seq::empty()) == "**"@ + branch + "**\n\n"@,
        workspace_md(branch, repos.push((name, lines))) == workspace_md(branch, repos) + repo_md(
            name,
            lines,
            true,
        ),
{
    let more = repos.push((name, lines));
    assert(more.drop_last() =~= repos);
    assert(more.last() == (name, lines));
    assert(repo_mds(more) == repo_mds(repos) + repo_md(name, lines, true));
    assert(workspace_md(branch, more) =~= workspace_md(branch, repos) + repo_md(name, lines, true));
    assert(repo_mds(Seq::empty()) =~= Seq::empty());
    assert(workspace_md(branch, Seq::empty()) =~= "**"@ + branch + "**\n\n"@);
}

/// A bullet of a source names the branches of the workspaces that hold its commit, each once and in
/// order; where none does, nothing is said.
pub proof fn law_branches_behind_a_bullet(tags: Tags, id: Seq<char>)
    ensures
        (forall|i: int| 0 <= i < tags.len() ==> (#[trigger] tags[i]).0 != id) ==> branch_suffix(
            tags,
            id,
        ).len() == 0,
        forall|i: int|
            0 <= i < tags.len() && (#[trigger] tags[i]).0 == id ==> exists|names: Seq<Seq<char>>|
                #[trigger] order::ascending(names) && names.contains(tags[i].1) && (forall|b: Seq<char>| #[trigger]
                    names.contains(b) ==> exists|j: int|
                        0 <= j < tags.len() && #[trigger] tags[j].0 == id && tags[j].1 == b)
                    && branch_suffix(tags, id) == " \u{2014} _"@ + text::joined(names, ", "@) + "_"@,
{
    let list = log_view::branches_of(tags, id);
    let names = order::sorted_set(list);
    order::law_sorted_set(list);
    order::law_sorted_set_is_unique(list, list);
    let p = log_view::law_branches_of_a_commit(tags, id);
    if forall|i: int| 0 <= i < tags.len() ==> (#[trigger] tags[i]).0 != id {
        if names.len() > 0 {
            assert(names.contains(names[0]));
            assert(list.contains(names[0]));
            let k = choose|k: int| 0 <= k < list.len() && list[k] == names[0];
            assert(tags[p[k]].0 == id);
        }
    }
    assert forall|i: int| 0 <= i < tags.len() && (#[trigger] tags[i]).0 == id implies exists|names: Seq<
        Seq<char>,
    >|
        #[trigger] order::ascending(names) && names.contains(tags[i].1) && (forall|b: Seq<char>| #[trigger]
            names.contains(b) ==> exists|j: int|
                0 <= j < tags.len() && #[trigger] tags[j].0 == id && tags[j].1 == b)
            && branch_suffix(tags, id) == " \u{2014} _"@ + text::joined(names, ", "@) + "_"@ by {
        assert(p.contains(i));
        let k = choose|k: int| 0 <= k < p.len() && p[k] == i;
        assert(list[k] == tags[i].1);
        assert(list.contains(tags[i].1));
        assert(names.contains(tags[i].1));
        assert forall|b: Seq<char>| #[trigger] names.contains(b) implies exists|j: int|
            0 <= j < tags.len() && #[trigger] tags[j].0 == id && tags[j].1 == b by {
            assert(list.contains(b));
            let m = choose|m: int| 0 <= m < list.len() && list[m] == b;
            assert(tags[p[m]].0 == id && tags[p[m]].1 == b);
        }
        assert(order::ascending(names));
    }
}

/// The bullets of a source are those of its lines, one behind the other, each with the branches
/// behind it.
pub proof fn law_source_bullets(a: Seq<LogLineView>, b: Seq<LogLineView>, l: LogLineView, tags: Tags)
    ensures
        source_bullets(a + b, tags) == source_bullets(a, tags) + source_bullets(b, tags),
        match l.commit {
            Some(c) => match c.pr_url {
                Some(url) => source_bullets(seq![l], tags) == bullet(c, url) + branch_suffix(
                    tags,
                    c.commit_id,
                ) + "\n"@,
                None => source_bullets(seq![l], tags).len() == 0,
            },
            None => source_bullets(seq![l], tags).len() == 0,
        },
    decreases b.len(),
{
    let one = seq![l];
    assert(one.drop_last() =~= Seq::empty());
    assert(source_bullets(one.drop_last(), tags) =~= Seq::empty());
    assert(one.last() == l);
    if has_pr(l) {
        let c = l.commit->0;
        assert(source_bullets(one, tags) =~= bullet(c, c.pr_url->0) + branch_suffix(
            tags,
            c.commit_id,
        ) + "\n"@);
    }
    if b.len() == 0 {
        assert(a + b =~= a);
        assert(source_bullets(a, tags) + source_bullets(b, tags) =~= source_bullets(a, tags));
    } else {
        let t = b.drop_last();
        law_source_bullets(a, t, l, tags);
        assert((a + b).drop_last() =~= a + t);
        assert((a + b).last() == b.last());
        assert(source_bullets(a + b, tags) =~= source_bullets(a, tags) + source_bullets(b, tags));
    }
}

/// Where no workspace holds any of the commits, a source's Markdown is its name in bold and the
/// bullets as a workspace would have them.
pub proof fn law_source_without_branches(
    ns: Seq<char>,
    name: Seq<char>,
    lines: Seq<LogLineView>,
)
    ensures
        source_md(ns, name, lines, Seq::empty()) == "**"@ + ns + "/"@ + name + "**\n\n"@ + bullets(
            lines,
        ),
{
    lemma_bare_bullets(lines);
}

proof fn lemma_bare_bullets(lines: Seq<LogLineView>)
    ensures
        source_bullets(lines, Seq::empty()) == bullets(lines),
    decreases lines.len(),
{
    if lines.len() > 0 {
        lemma_bare_bullets(lines.drop_last());
        let l = lines.last();
        if has_pr(l) {
            let c = l.commit->0;
            law_branches_behind_a_bullet(Seq::empty(), c.commit_id);
            assert(branch_suffix(Seq::empty(), c.commit_id) =~= Seq::empty());
            assert(bullet(c, c.pr_url->0) + branch_suffix(Seq::empty(), c.commit_id) + "\n"@
                =~= bullet(c, c.pr_url->0) + "\n"@);
        }
    }
}

} // verus!
