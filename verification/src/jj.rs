//! The log of a jj repository: which revisions to ask for, and how to read what jj prints.
use vstd::prelude::*;

use crate::gh::PrState;
use crate::gh::ReviewDecision;
use crate::text;

verus! {

/// One commit of a log.
#[derive(Debug)]
pub struct Commit {
    pub change_id: String,
    pub commit_id: String,
    pub empty: bool,
    pub title: String,
    /// Short commit IDs of this commit's parents. Two or more mean that it is a merge.
    pub parents: Vec<String>,
    pub pr_url: Option<String>,
    pub pr_number: Option<u64>,
    /// `Some(true)` for a draft, `Some(false)` for one that is ready for review, `None` where
    /// there is no pull request or nothing is known of it.
    pub is_draft: Option<bool>,
    /// The pull request's title on GitHub, which goes before `title`.
    pub pr_title: Option<String>,
    pub pr_state: Option<PrState>,
    pub review_decision: Option<ReviewDecision>,
}

/// One line of a log: the graph drawn on it, and the commit that it carries unless it only
/// connects others.
#[derive(Debug)]
pub struct LogLine {
    pub graph: String,
    pub commit: Option<Commit>,
}

/// The content of a `Commit`.
pub struct CommitView {
    pub change_id: Seq<char>,
    pub commit_id: Seq<char>,
    pub empty: bool,
    pub title: Seq<char>,
    pub parents: Seq<Seq<char>>,
    pub pr_url: Option<Seq<char>>,
    pub pr_number: Option<u64>,
    pub is_draft: Option<bool>,
    pub pr_title: Option<Seq<char>>,
    pub pr_state: Option<PrState>,
    pub review_decision: Option<ReviewDecision>,
}

/// The content of a `LogLine`.
pub struct LogLineView {
    pub graph: Seq<char>,
    pub commit: Option<CommitView>,
}

impl DeepView for Commit {
    type V = CommitView;

    open spec fn deep_view(&self) -> CommitView {
        CommitView {
            change_id: self.change_id@,
            commit_id: self.commit_id@,
            empty: self.empty,
            title: self.title@,
            parents: self.parents.deep_view(),
            pr_url: self.pr_url.deep_view(),
            pr_number: self.pr_number,
            is_draft: self.is_draft,
            pr_title: self.pr_title.deep_view(),
            pr_state: self.pr_state,
            review_decision: self.review_decision,
        }
    }
}

impl DeepView for LogLine {
    type V = LogLineView;

    open spec fn deep_view(&self) -> LogLineView {
        LogLineView { graph: self.graph@, commit: self.commit.deep_view() }
    }
}

fn clone_text(s: &Option<String>) -> (out: Option<String>)
    ensures
        out.deep_view() == s.deep_view(),
{
    match s {
        Some(t) => Some(t.clone()),
        None => None,
    }
}

fn clone_texts(v: &Vec<String>) -> (out: Vec<String>)
    ensures
        out.deep_view() == v.deep_view(),
{
    let mut out: Vec<String> = Vec::new();
    let mut i: usize = 0;
    while i < v.len()
        invariant
            i <= v.len(),
            out.deep_view() =~= v.deep_view().take(i as int),
        decreases v.len() - i,
    {
        let ghost before = out.deep_view();
        let t = v[i].clone();
        out.push(t);
        assert(out.deep_view() =~= before.push(t@));
        i += 1;
    }
    assert(v.deep_view().take(i as int) =~= v.deep_view());
    out
}

impl Clone for Commit {
    fn clone(&self) -> (out: Self)
        ensures
            out.deep_view() == self.deep_view(),
    {
        Commit {
            change_id: self.change_id.clone(),
            commit_id: self.commit_id.clone(),
            empty: self.empty,
            title: self.title.clone(),
            parents: clone_texts(&self.parents),
            pr_url: clone_text(&self.pr_url),
            pr_number: self.pr_number,
            is_draft: self.is_draft,
            pr_title: clone_text(&self.pr_title),
            pr_state: self.pr_state,
            review_decision: self.review_decision,
        }
    }
}

impl Clone for LogLine {
    fn clone(&self) -> (out: Self)
        ensures
            out.deep_view() == self.deep_view(),
    {
        LogLine {
            graph: self.graph.clone(),
            commit: match &self.commit {
                Some(c) => Some(c.clone()),
                None => None,
            },
        }
    }
}

// ---------------------------------------------------------------------------------------------
// The graph log

/// Separates the fields of a commit in jj's output.
pub const UNIT: char = '\x1f';

/// How long the IDs are that jj prints.
pub const SHORT_ID_LEN: usize = 12;

/// jj's template for a commit on one line, so that it pairs with the graph on that line.
pub const TEMPLATE: &'static str = "change_id.short() ++ \"\\x1f\"\
    ++ commit_id.short() ++ \"\\x1f\"\
    ++ if(empty, \"1\", \"0\") ++ \"\\x1f\"\
    ++ parents.map(|p| p.commit_id().short()).join(\",\") ++ \"\\x1f\"\
    ++ description.first_line() ++ \"\\n\"";

/// jj's template for a commit's whole description.
pub const TRAILER_TEMPLATE: &'static str = "change_id.short() ++ \"\\x1f\"\
    ++ description ++ \"\\x1e\"";

/// The number of bytes that `s` takes in UTF-8.
pub open spec fn byte_len(s: Seq<char>) -> nat {
    vstd::utf8::encode_utf8(s).len()
}

/// The number of bytes that `s` takes in UTF-8.
fn bytes_in(s: &[char]) -> (n: usize)
    ensures
        n == byte_len(s@),
{
    let t = text::text_of(s);
    t.as_str().as_bytes().len()
}

/// Whether the last twelve bytes of `before`, where there are as many, start with a character.
pub open spec fn id_starts_clean(before: Seq<char>) -> bool {
    let b = vstd::utf8::encode_utf8(before);
    b.len() >= SHORT_ID_LEN ==> vstd::utf8::is_char_boundary(b, b.len() - SHORT_ID_LEN)
}

/// Whether the last twelve characters of `s` are letters and digits.
pub open spec fn ends_in_id(s: Seq<char>) -> bool {
    s.len() >= SHORT_ID_LEN && forall|i: int|
        s.len() - SHORT_ID_LEN <= i < s.len() ==> text::is_alphanumeric(#[trigger] s[i])
}

/// The graph and the change ID in front of the first separator: the ID is the twelve letters and
/// digits at the end; where there are none, all of it is graph.
pub open spec fn graph_and_id(before: Seq<char>) -> (Seq<char>, Seq<char>) {
    if ends_in_id(before) {
        (before.take(before.len() - SHORT_ID_LEN), before.skip(before.len() - SHORT_ID_LEN))
    } else {
        (before, seq![])
    }
}

/// Splits `"│ ○  abcdef012345"` into the graph and the change ID.
pub fn split_graph_and_id(before_unit: &str) -> (out: (String, String))
    requires
        id_starts_clean(before_unit@),
    ensures
        out.deep_view() == graph_and_id(before_unit@),
{
    let b = text::chars_of(before_unit);
    if b.len() >= SHORT_ID_LEN {
        let k: usize = b.len() - SHORT_ID_LEN;
        let mut i: usize = k;
        while i < b.len()
            invariant
                k <= i <= b.len(),
                k == b.len() - SHORT_ID_LEN,
                b@ == before_unit@,
                forall|j: int| k <= j < i ==> text::is_alphanumeric(#[trigger] b@[j]),
            decreases b.len() - i,
        {
            if !text::alphanumeric(b[i]) {
                return (before_unit.to_owned(), String::new());
            }
            i += 1;
        }
        let graph = vstd::slice::slice_subrange(b.as_slice(), 0, k);
        let id = vstd::slice::slice_subrange(b.as_slice(), k, b.len());
        assert(id@ =~= b@.skip(k as int));
        return (text::text_of(graph), text::text_of(id));
    }
    (before_unit.to_owned(), String::new())
}

/// A line that only connects commits.
pub open spec fn connector(line: Seq<char>) -> LogLineView {
    LogLineView { graph: line, commit: None }
}

/// The parents that a field lists.
pub open spec fn parent_ids(field: Seq<char>) -> Seq<Seq<char>> {
    if field.len() == 0 {
        seq![]
    } else {
        text::pieces(field, ',')
    }
}

/// What one line of the log says. A line with fewer fields than a commit has, or too short a
/// commit ID, is taken for graph.
pub open spec fn graph_row(line: Seq<char>) -> LogLineView {
    match text::cut(line, UNIT) {
        None => connector(line),
        Some((before, after)) => {
            let rest = text::first_pieces(after, UNIT, 4);
            if rest.len() != 4 || byte_len(rest[0]) < SHORT_ID_LEN {
                connector(line)
            } else {
                LogLineView {
                    graph: graph_and_id(before).0,
                    commit: Some(
                        CommitView {
                            change_id: graph_and_id(before).1,
                            commit_id: rest[0],
                            empty: rest[1] == "1"@,
                            title: text::trimmed(rest[3]),
                            parents: parent_ids(rest[2]),
                            pr_url: None,
                            pr_number: None,
                            is_draft: None,
                            pr_title: None,
                            pr_state: None,
                            review_decision: None,
                        },
                    ),
                }
            }
        },
    }
}

/// Whether the change ID on a line starts with a character.
pub open spec fn row_is_clean(line: Seq<char>) -> bool {
    match text::cut(line, UNIT) {
        None => true,
        Some((before, _)) => id_starts_clean(before),
    }
}

/// What the lines of a log say; empty lines say nothing.
pub open spec fn graph_rows(lines: Seq<Seq<char>>) -> Seq<LogLineView>
    decreases lines.len(),
{
    if lines.len() == 0 {
        seq![]
    } else {
        let line = text::drop_trailing(lines.last(), '\r');
        let before = graph_rows(lines.drop_last());
        if line.len() == 0 {
            before
        } else {
            before.push(graph_row(line))
        }
    }
}

/// Whether the change ID on every line of a log starts with a character.
pub open spec fn log_is_clean(log: Seq<char>) -> bool {
    let lines = text::line_list(log);
    forall|i: int|
        0 <= i < lines.len() ==> row_is_clean(text::drop_trailing(#[trigger] lines[i], '\r'))
}

/// The texts of `parts`.
fn texts_of(parts: &Vec<&[char]>) -> (out: Vec<String>)
    ensures
        out.deep_view() == text::views(parts@),
{
    let mut out: Vec<String> = Vec::new();
    let mut i: usize = 0;
    while i < parts.len()
        invariant
            i <= parts.len(),
            out.deep_view() =~= text::views(parts@).take(i as int),
        decreases parts.len() - i,
    {
        let ghost before = out.deep_view();
        let t = text::text_of(parts[i]);
        out.push(t);
        assert(out.deep_view() =~= before.push(t@));
        i += 1;
    }
    assert(text::views(parts@).take(i as int) =~= text::views(parts@));
    out
}

/// Reads one line of the log.
fn parse_row(line: &[char]) -> (out: LogLine)
    requires
        row_is_clean(line@),
    ensures
        out.deep_view() == graph_row(line@),
{
    match text::split_once(line, UNIT) {
        None => LogLine { graph: text::text_of(line), commit: None },
        Some((before, after)) => {
            let b = text::text_of(before);
            let (graph, change_id) = split_graph_and_id(b.as_str());
            let rest = text::split_up_to(after, UNIT, 4);
            let ghost v = text::views(rest@);
            if rest.len() != 4 {
                return LogLine { graph: text::text_of(line), commit: None };
            }
            assert(v[0] == rest@[0]@ && v[1] == rest@[1]@ && v[2] == rest@[2]@ && v[3]
                == rest@[3]@);
            if bytes_in(rest[0]) < SHORT_ID_LEN {
                return LogLine { graph: text::text_of(line), commit: None };
            }
            let parents: Vec<String> = if rest[2].len() == 0 {
                Vec::new()
            } else {
                texts_of(&text::split(rest[2], ','))
            };
            assert(parents.deep_view() =~= parent_ids(rest@[2]@));
            LogLine {
                graph,
                commit: Some(
                    Commit {
                        change_id,
                        commit_id: text::text_of(rest[0]),
                        empty: text::is_text(rest[1], "1"),
                        title: text::text_of(text::trim(rest[3])),
                        parents,
                        pr_url: None,
                        pr_number: None,
                        is_draft: None,
                        pr_title: None,
                        pr_state: None,
                        review_decision: None,
                    },
                ),
            }
        },
    }
}

/// Reads what `jj log` printed with the graph.
pub fn parse_graph_log(log: &str) -> (out: Vec<LogLine>)
    requires
        log_is_clean(log@),
    ensures
        out.deep_view() == graph_rows(text::line_list(log@)),
{
    let chars = text::chars_of(log);
    let lines = text::lines(chars.as_slice());
    let ghost all = text::views(lines@);
    let mut out: Vec<LogLine> = Vec::new();
    let mut i: usize = 0;
    while i < lines.len()
        invariant
            i <= lines.len(),
            all == text::views(lines@),
            forall|j: int|
                0 <= j < all.len() ==> row_is_clean(text::drop_trailing(#[trigger] all[j], '\r')),
            out.deep_view() =~= graph_rows(all.take(i as int)),
        decreases lines.len() - i,
    {
        proof {
            assert(all[i as int] == lines@[i as int]@);
            assert(all.take(i + 1).drop_last() =~= all.take(i as int));
            assert(all.take(i + 1).last() == all[i as int]);
        }
        let line = text::trim_end(lines[i], '\r');
        if line.len() > 0 {
            let ghost before = out.deep_view();
            let row = parse_row(line);
            out.push(row);
            assert(out.deep_view() =~= before.push(graph_row(line@)));
        }
        i += 1;
    }
    assert(all.take(i as int) =~= all);
    out
}

/// Tests whether the change ID on every line of a log starts with a character.
pub fn graph_log_is_clean(log: &str) -> (b: bool)
    ensures
        b == log_is_clean(log@),
{
    let chars = text::chars_of(log);
    let lines = text::lines(chars.as_slice());
    let ghost all = text::views(lines@);
    let mut i: usize = 0;
    while i < lines.len()
        invariant
            i <= lines.len(),
            all == text::views(lines@),
            all == text::line_list(log@),
            forall|j: int|
                0 <= j < i ==> row_is_clean(text::drop_trailing(#[trigger] all[j], '\r')),
        decreases lines.len() - i,
    {
        assert(all[i as int] == lines@[i as int]@);
        let line = text::trim_end(lines[i], '\r');
        match text::split_once(line, UNIT) {
            Some((before, _)) => {
                let t = text::text_of(before);
                let n: usize = t.as_str().as_bytes().len();
                if n >= SHORT_ID_LEN && !t.as_str().is_char_boundary(n - SHORT_ID_LEN) {
                    assert(!row_is_clean(text::drop_trailing(all[i as int], '\r')));
                    return false;
                }
            },
            None => {},
        }
        i += 1;
    }
    true
}

/// Reads the output of `jj log` with the graph. `None` where the twelve bytes in front of a
/// separator begin inside a character, so that no change ID can be cut off there.
pub fn run_graph_log(stdout: &[u8]) -> (out: Option<Vec<LogLine>>)
    ensures
        match out {
            Some(lines) => log_is_clean(text::utf8_lossy(stdout@)) && lines.deep_view()
                == graph_rows(text::line_list(text::utf8_lossy(stdout@))),
            None => !log_is_clean(text::utf8_lossy(stdout@)),
        },
{
    let log = text::from_utf8_lossy(stdout);
    if graph_log_is_clean(log.as_str()) {
        Some(parse_graph_log(log.as_str()))
    } else {
        None
    }
}

/// Nothing in front of the first separator is lost: the graph and the ID together are what stood
/// there.
pub proof fn law_graph_and_id_are_all(before: Seq<char>)
    ensures
        ({
            let (graph, id) = graph_and_id(before);
            graph + id == before && (id.len() == 0 || id.len() == SHORT_ID_LEN)
        }),
{
    let (graph, id) = graph_and_id(before);
    assert(graph + id =~= before);
}

/// A commit's line as jj writes it by `TEMPLATE`, behind the graph.
pub open spec fn written_row(
    graph: Seq<char>,
    change_id: Seq<char>,
    commit_id: Seq<char>,
    empty: bool,
    parents: Seq<Seq<char>>,
    title: Seq<char>,
) -> Seq<char> {
    let flag = if empty {
        "1"@
    } else {
        "0"@
    };
    (graph + change_id) + seq![UNIT] + (commit_id + seq![UNIT] + (flag + seq![UNIT] + (text::joined(
        parents,
        seq![','],
    ) + seq![UNIT] + title)))
}

/// Whether a text can be a change ID as jj shortens it.
pub open spec fn is_short_id(id: Seq<char>) -> bool {
    id.len() == SHORT_ID_LEN && forall|i: int|
        0 <= i < id.len() ==> text::is_alphanumeric(#[trigger] id[i])
}

/// Whether a text can be the ID of a parent.
pub open spec fn is_parent_id(id: Seq<char>) -> bool {
    id.len() > 0 && !id.contains(',') && !id.contains(UNIT)
}

proof fn lemma_joined_parents(parents: Seq<Seq<char>>)
    requires
        forall|i: int| 0 <= i < parents.len() ==> is_parent_id(#[trigger] parents[i]),
    ensures
        !text::joined(parents, seq![',']).contains(UNIT),
        parents.len() > 0 ==> text::joined(parents, seq![',']).len() > 0,
        parent_ids(text::joined(parents, seq![','])) == parents,
    decreases parents.len(),
{
    let j = text::joined(parents, seq![',']);
    if parents.len() == 0 {
        assert(parents =~= seq![]);
    } else {
        assert(is_parent_id(parents[parents.len() - 1]));
        if parents.len() > 1 {
            let t = parents.drop_last();
            assert forall|i: int| 0 <= i < t.len() implies is_parent_id(#[trigger] t[i]) by {
                assert(is_parent_id(parents[i]));
            }
            lemma_joined_parents(t);
            let h = text::joined(t, seq![',']);
            assert(j == h + seq![','] + parents.last());
            if j.contains(UNIT) {
                let k = choose|k: int| 0 <= k < j.len() && j[k] == UNIT;
                if k < h.len() {
                    assert(h[k] == UNIT);
                } else if k > h.len() {
                    assert(parents.last()[k - h.len() - 1] == UNIT);
                }
            }
        }
        assert forall|i: int| 0 <= i < parents.len() implies !(#[trigger] parents[i]).contains(
            ',',
        ) by {
            assert(is_parent_id(parents[i]));
        }
        text::law_joined_is_split(parents, ',');
    }
}

/// A commit's line that jj writes is read back: every field comes out as it went in, the title
/// without the white space around it.
pub proof fn law_row_is_read_back(
    graph: Seq<char>,
    change_id: Seq<char>,
    commit_id: Seq<char>,
    empty: bool,
    parents: Seq<Seq<char>>,
    title: Seq<char>,
)
    requires
        !graph.contains(UNIT),
        is_short_id(change_id),
        !commit_id.contains(UNIT),
        byte_len(commit_id) >= SHORT_ID_LEN,
        forall|i: int| 0 <= i < parents.len() ==> is_parent_id(#[trigger] parents[i]),
    ensures
        graph_row(written_row(graph, change_id, commit_id, empty, parents, title)) == (LogLineView {
            graph,
            commit: Some(
                CommitView {
                    change_id,
                    commit_id,
                    empty,
                    title: text::trimmed(title),
                    parents,
                    pr_url: None,
                    pr_number: None,
                    is_draft: None,
                    pr_title: None,
                    pr_state: None,
                    review_decision: None,
                },
            ),
        }),
{
    let flag = if empty {
        "1"@
    } else {
        "0"@
    };
    let list = text::joined(parents, seq![',']);
    let before = graph + change_id;
    let c = list + seq![UNIT] + title;
    let b = flag + seq![UNIT] + c;
    let after = commit_id + seq![UNIT] + b;
    let line = before + seq![UNIT] + after;
    lemma_joined_parents(parents);
    assert(!before.contains(UNIT)) by {
        if before.contains(UNIT) {
            let k = choose|k: int| 0 <= k < before.len() && before[k] == UNIT;
            if k < graph.len() {
                assert(graph[k] == UNIT);
            } else {
                assert(text::is_alphanumeric(change_id[k - graph.len()]));
            }
        }
    }
    assert(!flag.contains(UNIT) && flag == (if empty { "1"@ } else { "0"@ }) && "1"@ != "0"@) by {
        reveal_strlit("1");
        reveal_strlit("0");
        assert("1"@[0] != "0"@[0]);
    }
    text::lemma_cut_joined(before, after, UNIT);
    lemma_four_fields(commit_id, flag, list, title);
    assert(ends_in_id(before)) by {
        assert forall|i: int|
            before.len() - SHORT_ID_LEN <= i < before.len() implies text::is_alphanumeric(
            #[trigger] before[i],
        ) by {
            assert(before[i] == change_id[i - graph.len()]);
        }
    }
    assert(before.take(before.len() - SHORT_ID_LEN) =~= graph);
    assert(before.skip(before.len() - SHORT_ID_LEN) =~= change_id);
}

proof fn lemma_four_fields(a: Seq<char>, b: Seq<char>, c: Seq<char>, d: Seq<char>)
    requires
        !a.contains(UNIT),
        !b.contains(UNIT),
        !c.contains(UNIT),
    ensures
        text::first_pieces(
            a + seq![UNIT] + (b + seq![UNIT] + (c + seq![UNIT] + d)),
            UNIT,
            4,
        ) == seq![a, b, c, d],
{
    let t = c + seq![UNIT] + d;
    let u = b + seq![UNIT] + t;
    text::lemma_cut_joined(a, u, UNIT);
    text::lemma_cut_joined(b, t, UNIT);
    text::lemma_cut_joined(c, d, UNIT);
    assert(text::first_pieces(d, UNIT, 1) == seq![d]);
    assert(text::first_pieces(t, UNIT, 2) == seq![c] + seq![d]);
    assert(text::first_pieces(u, UNIT, 3) == seq![b] + (seq![c] + seq![d]));
    assert(seq![a] + (seq![b] + (seq![c] + seq![d])) =~= seq![a, b, c, d]);
}

/// Whether a text can stand on a line of its own in a log.
pub open spec fn is_log_line(line: Seq<char>) -> bool {
    line.len() > 0 && line.last() != '\r' && !line.contains('\n')
}

/// A log that jj writes line by line is read back line by line.
pub proof fn law_log_is_read_back(lines: Seq<Seq<char>>)
    requires
        forall|i: int| 0 <= i < lines.len() ==> is_log_line(#[trigger] lines[i]),
    ensures
        graph_rows(text::line_list(text::terminated(lines))) == lines.map_values(
            |l: Seq<char>| graph_row(l),
        ),
{
    assert forall|i: int| 0 <= i < lines.len() implies !(#[trigger] lines[i]).contains('\n') && !(
    lines[i].len() > 0 && lines[i].last() == '\r') by {
        assert(is_log_line(lines[i]));
    }
    text::law_lines_are_read_back(lines);
    lemma_rows_one_by_one(lines);
}

proof fn lemma_rows_one_by_one(lines: Seq<Seq<char>>)
    requires
        forall|i: int| 0 <= i < lines.len() ==> is_log_line(#[trigger] lines[i]),
    ensures
        graph_rows(lines) =~= lines.map_values(|l: Seq<char>| graph_row(l)),
    decreases lines.len(),
{
    if lines.len() > 0 {
        let t = lines.drop_last();
        assert forall|i: int| 0 <= i < t.len() implies is_log_line(#[trigger] t[i]) by {
            assert(is_log_line(lines[i]));
        }
        lemma_rows_one_by_one(t);
        let l = lines.last();
        assert(is_log_line(lines[lines.len() - 1]));
        let p = text::only('\r');
        assert(!p(l.last()));
        assert(text::tail_run(l, p) == 0);
        assert(text::drop_trailing(l, '\r') =~= l);
    }
}

// ---------------------------------------------------------------------------------------------
// Pull request trailers

/// The URL behind the first trailer among `lines`.
pub open spec fn first_trailer(lines: Seq<Seq<char>>) -> Option<Seq<char>>
    decreases lines.len(),
{
    if lines.len() == 0 {
        None
    } else {
        match text::after_prefix(text::trimmed(lines[0]), "Pull Request:"@) {
            Some(rest) => Some(text::trimmed(rest)),
            None => first_trailer(lines.drop_first()),
        }
    }
}

/// The URL that a description's `Pull Request:` trailer names.
pub fn extract_pr_url(desc: &str) -> (out: Option<String>)
    ensures
        out.deep_view() == first_trailer(text::line_list(desc@)),
{
    let chars = text::chars_of(desc);
    extract_from(chars.as_slice())
}

fn extract_from(desc: &[char]) -> (out: Option<String>)
    ensures
        out.deep_view() == first_trailer(text::line_list(desc@)),
{
    let lines = text::lines(desc);
    let ghost all = text::views(lines@);
    let mut i: usize = 0;
    assert(all.skip(0) =~= all);
    while i < lines.len()
        invariant
            i <= lines.len(),
            all == text::views(lines@),
            first_trailer(all) == first_trailer(all.skip(i as int)),
            all == text::line_list(desc@),
        decreases lines.len() - i,
    {
        proof {
            assert(all.skip(i as int)[0] == lines@[i as int]@);
            assert(all.skip(i as int).drop_first() =~= all.skip(i + 1));
        }
        match text::strip_prefix(text::trim(lines[i]), "Pull Request:") {
            Some(rest) => {
                return Some(text::text_of(text::trim(rest)));
            },
            None => {},
        }
        i += 1;
    }
    None
}

/// The number at the end of a pull request's URL.
pub open spec fn pr_number_of(url: Seq<char>) -> Option<u64> {
    text::parsed_number(text::pieces(text::drop_trailing(url, '/'), '/').last())
}

/// Reads the number at the end of a pull request's URL.
pub fn parse_pr_number(url: &str) -> (out: Option<u64>)
    ensures
        out == pr_number_of(url@),
{
    let chars = text::chars_of(url);
    let parts = text::split(text::trim_end(chars.as_slice(), '/'), '/');
    proof {
        let t = text::drop_trailing(url@, '/');
        text::lemma_pieces_nonempty(t, '/');
        assert(text::views(parts@).last() == parts@[parts@.len() - 1]@);
    }
    text::parse_number(parts[parts.len() - 1])
}

/// Separates the records of the trailer log.
pub const RECORD: char = '\x1e';

/// The change ID and the URL that a record of the trailer log names.
pub open spec fn trailer_of(record: Seq<char>) -> Option<(Seq<char>, Seq<char>)> {
    match text::cut(record, UNIT) {
        Some((id, desc)) => match first_trailer(text::line_list(desc)) {
            Some(url) => if text::trimmed(record).len() == 0 {
                None
            } else {
                Some((text::drop_leading(id, '\n'), url))
            },
            None => None,
        },
        None => None,
    }
}

/// The change IDs and URLs that the records name, in their order.
pub open spec fn trailer_list(records: Seq<Seq<char>>) -> Seq<(Seq<char>, Seq<char>)>
    decreases records.len(),
{
    if records.len() == 0 {
        seq![]
    } else {
        let before = trailer_list(records.drop_last());
        match trailer_of(records.last()) {
            Some(t) => before.push(t),
            None => before,
        }
    }
}

/// Reads the trailer log: which change ID has which pull request, in the order of the log.
pub fn parse_trailer_log(log: &str) -> (out: Vec<(String, String)>)
    ensures
        out.deep_view() == trailer_list(text::pieces(log@, RECORD)),
{
    let chars = text::chars_of(log);
    let records = text::split(chars.as_slice(), RECORD);
    let ghost all = text::views(records@);
    let mut out: Vec<(String, String)> = Vec::new();
    let mut i: usize = 0;
    while i < records.len()
        invariant
            i <= records.len(),
            all == text::views(records@),
            out.deep_view() =~= trailer_list(all.take(i as int)),
        decreases records.len() - i,
    {
        proof {
            assert(all.take(i + 1).drop_last() =~= all.take(i as int));
            assert(all.take(i + 1).last() == records@[i as int]@);
        }
        let record = records[i];
        i += 1;
        if text::trim(record).len() == 0 {
            continue;
        }
        match text::split_once(record, UNIT) {
            Some((id, desc)) => match extract_from(desc) {
                Some(url) => {
                    let ghost before = out.deep_view();
                    let entry = (text::text_of(text::trim_start(id, '\n')), url);
                    out.push(entry);
                    assert(out.deep_view() =~= before.push(entry.deep_view()));
                },
                None => {},
            },
            None => {},
        }
    }
    assert(all.take(i as int) =~= all);
    out
}

/// Reads the output of `jj log` with the descriptions.
pub fn run_trailer_log(stdout: &[u8]) -> (out: Vec<(String, String)>)
    ensures
        out.deep_view() == trailer_list(text::pieces(text::utf8_lossy(stdout@), RECORD)),
{
    let log = text::from_utf8_lossy(stdout);
    parse_trailer_log(log.as_str())
}

/// A record of the trailer log that jj writes is read back: the pull request that the description
/// names, if it names one, under the change ID.
pub proof fn law_record_is_read_back(change_id: Seq<char>, description: Seq<char>)
    requires
        is_short_id(change_id),
    ensures
        trailer_of(change_id + seq![UNIT] + description) == match first_trailer(
            text::line_list(description),
        ) {
            Some(url) => Some((change_id, url)),
            None => None,
        },
{
    let record = change_id + seq![UNIT] + description;
    assert(text::is_alphanumeric(change_id[0]));
    assert(record[0] == change_id[0]);
    assert(!change_id.contains(UNIT)) by {
        if change_id.contains(UNIT) {
            let k = choose|k: int| 0 <= k < change_id.len() && change_id[k] == UNIT;
            assert(text::is_alphanumeric(change_id[k]));
        }
    }
    text::lemma_cut_joined(change_id, description, UNIT);
    text::lemma_trimmed_nonempty(record);
    let p = text::only('\n');
    assert(!p(change_id[0]));
    assert(text::head_run(change_id, p) == 0);
    assert(text::drop_leading(change_id, '\n') =~= change_id);
}

/// Records as jj writes them, each with a separator behind it.
pub open spec fn recorded(records: Seq<Seq<char>>) -> Seq<char>
    decreases records.len(),
{
    if records.len() == 0 {
        seq![]
    } else {
        records[0] + seq![RECORD] + recorded(records.drop_first())
    }
}

/// A trailer log that jj writes record by record is read back record by record.
pub proof fn law_trailer_log_is_read_back(records: Seq<Seq<char>>)
    requires
        forall|i: int| 0 <= i < records.len() ==> !(#[trigger] records[i]).contains(RECORD),
    ensures
        trailer_list(text::pieces(recorded(records), RECORD)) == trailer_list(records),
{
    lemma_records_split(records);
    let empty = Seq::<char>::empty();
    let all = records.push(empty);
    assert(all.drop_last() =~= records);
    text::lemma_one_piece(empty, UNIT);
    assert(trailer_of(empty) is None);
    assert(trailer_list(all) == trailer_list(records));
}

proof fn lemma_records_split(records: Seq<Seq<char>>)
    requires
        forall|i: int| 0 <= i < records.len() ==> !(#[trigger] records[i]).contains(RECORD),
    ensures
        text::pieces(recorded(records), RECORD) == records.push(seq![]),
    decreases records.len(),
{
    if records.len() == 0 {
        text::lemma_one_piece(seq![], RECORD);
        assert(records.push(seq![]) =~= seq![Seq::<char>::empty()]);
    } else {
        let t = records.drop_first();
        assert forall|i: int| 0 <= i < t.len() implies !(#[trigger] t[i]).contains(RECORD) by {
            assert(t[i] == records[i + 1]);
        }
        lemma_records_split(t);
        assert(!records[0].contains(RECORD));
        text::lemma_pieces_joined(records[0], recorded(t), RECORD);
        assert(seq![records[0]] + t.push(seq![]) =~= records.push(seq![]));
    }
}

/// The URL that `trailers` gives for a change ID; a later entry goes before an earlier one.
pub open spec fn url_of(trailers: Seq<(Seq<char>, Seq<char>)>, id: Seq<char>) -> Option<Seq<char>>
    decreases trailers.len(),
{
    if trailers.len() == 0 {
        None
    } else if trailers.last().0 == id {
        Some(trailers.last().1)
    } else {
        url_of(trailers.drop_last(), id)
    }
}

/// A commit with the pull request that `trailers` gives for its change ID.
pub open spec fn commit_with_pr(
    c: CommitView,
    trailers: Seq<(Seq<char>, Seq<char>)>,
) -> CommitView {
    match url_of(trailers, c.change_id) {
        Some(url) => CommitView { pr_url: Some(url), pr_number: pr_number_of(url), ..c },
        None => c,
    }
}

/// A line with the pull request of its commit.
pub open spec fn line_with_pr(l: LogLineView, trailers: Seq<(Seq<char>, Seq<char>)>) -> LogLineView {
    match l.commit {
        Some(c) => LogLineView { graph: l.graph, commit: Some(commit_with_pr(c, trailers)) },
        None => l,
    }
}

/// Every line with the pull request of its commit.
pub open spec fn lines_with_prs(
    lines: Seq<LogLineView>,
    trailers: Seq<(Seq<char>, Seq<char>)>,
) -> Seq<LogLineView> {
    Seq::new(lines.len(), |i: int| line_with_pr(lines[i], trailers))
}

fn find_url(trailers: &Vec<(String, String)>, id: &String) -> (out: Option<String>)
    ensures
        out.deep_view() == url_of(trailers.deep_view(), id@),
{
    let ghost all = trailers.deep_view();
    let mut k: usize = trailers.len();
    assert(all.take(k as int) =~= all);
    while k > 0
        invariant
            k <= trailers.len(),
            all == trailers.deep_view(),
            url_of(all, id@) == url_of(all.take(k as int), id@),
        decreases k,
    {
        proof {
            assert(all.take(k as int).last() == trailers@[k - 1].deep_view());
            assert(all.take(k as int).drop_last() =~= all.take(k - 1));
        }
        if trailers[k - 1].0 == *id {
            return Some(trailers[k - 1].1.clone());
        }
        k -= 1;
    }
    None
}

/// Gives every commit the pull request that `trailers` has for it.
pub fn attach_prs(lines: Vec<LogLine>, trailers: &Vec<(String, String)>) -> (out: Vec<LogLine>)
    ensures
        out.deep_view() == lines_with_prs(lines.deep_view(), trailers.deep_view()),
{
    let ghost all = lines.deep_view();
    let ghost tr = trailers.deep_view();
    let mut out: Vec<LogLine> = Vec::new();
    let mut i: usize = 0;
    while i < lines.len()
        invariant
            i <= lines.len(),
            all == lines.deep_view(),
            tr == trailers.deep_view(),
            out.deep_view() =~= lines_with_prs(all, tr).take(i as int),
        decreases lines.len() - i,
    {
        let ghost before = out.deep_view();
        let mut line = lines[i].clone();
        if let Some(c) = &lines[i].commit {
            if let Some(url) = find_url(trailers, &c.change_id) {
                let mut rich = c.clone();
                rich.pr_number = parse_pr_number(url.as_str());
                rich.pr_url = Some(url);
                line = LogLine { graph: lines[i].graph.clone(), commit: Some(rich) };
            }
        }
        assert(line.deep_view() == line_with_pr(all[i as int], tr));
        out.push(line);
        assert(out.deep_view() =~= before.push(line.deep_view()));
        i += 1;
    }
    assert(lines_with_prs(all, tr).take(i as int) =~= lines_with_prs(all, tr));
    out
}

/// The trailers in the output of the trailer log; none where it failed.
pub open spec fn trailers_in(stdout: Option<Seq<u8>>) -> Seq<(Seq<char>, Seq<char>)> {
    match stdout {
        Some(bytes) => trailer_list(text::pieces(text::utf8_lossy(bytes), RECORD)),
        None => seq![],
    }
}

/// The log that the two outputs of jj make.
pub open spec fn log_of(trailer: Option<Seq<u8>>, graph: Seq<u8>) -> Seq<LogLineView> {
    lines_with_prs(graph_rows(text::line_list(text::utf8_lossy(graph))), trailers_in(trailer))
}

/// The lines between trunk and the working copy, each with its commit's pull request: from the
/// output of the trailer log (`None` where it failed) and that of the graph log. `None` where the
/// graph log cannot be read (see `run_graph_log`).
pub fn stack(trailer: Option<&[u8]>, graph: &[u8]) -> (out: Option<Vec<LogLine>>)
    ensures
        match out {
            Some(lines) => log_is_clean(text::utf8_lossy(graph@)) && lines.deep_view() == log_of(
                match trailer {
                    Some(t) => Some(t@),
                    None => None,
                },
                graph@,
            ),
            None => !log_is_clean(text::utf8_lossy(graph@)),
        },
{
    let trailers: Vec<(String, String)> = match trailer {
        Some(stdout) => run_trailer_log(stdout),
        None => Vec::new(),
    };
    proof {
        if trailer is None {
            assert(trailers.deep_view() =~= seq![]);
        }
    }
    match run_graph_log(graph) {
        Some(lines) => Some(attach_prs(lines, &trailers)),
        None => None,
    }
}

/// The lines that jj shows by default, read in the same way.
pub fn default_log(trailer: Option<&[u8]>, graph: &[u8]) -> (out: Option<Vec<LogLine>>)
    ensures
        match out {
            Some(lines) => log_is_clean(text::utf8_lossy(graph@)) && lines.deep_view() == log_of(
                match trailer {
                    Some(t) => Some(t@),
                    None => None,
                },
                graph@,
            ),
            None => !log_is_clean(text::utf8_lossy(graph@)),
        },
{
    stack(trailer, graph)
}

// ---------------------------------------------------------------------------------------------
// What to ask jj for

/// The revision sets to try, in this order.
pub open spec fn revsets() -> Seq<Seq<char>> {
    seq!["trunk()..@"@, "main..@"@, "master..@"@]
}

/// What to do about the revision set.
#[derive(Debug)]
pub enum RevsetStep {
    /// Ask jj whether it knows this one.
    Try(String),
    /// Take this one.
    Use(String),
    /// jj knows none of them.
    Unusable,
}

/// Whether jj accepted one of the revision sets tried so far, and which.
pub open spec fn accepted(outcomes: Seq<bool>) -> Option<int>
    decreases outcomes.len(),
{
    if outcomes.len() == 0 {
        None
    } else {
        match accepted(outcomes.drop_last()) {
            Some(i) => Some(i),
            None => if outcomes.last() {
                Some(outcomes.len() - 1)
            } else {
                None
            },
        }
    }
}

fn revset(i: usize) -> (out: String)
    requires
        i < 3,
    ensures
        out@ == revsets()[i as int],
{
    if i == 0 {
        "trunk()..@".to_owned()
    } else if i == 1 {
        "main..@".to_owned()
    } else {
        "master..@".to_owned()
    }
}

/// Picks the first revision set that jj accepts: `outcomes` says of each one tried so far whether
/// jj did.
pub fn pick_revset(outcomes: &Vec<bool>) -> (out: RevsetStep)
    requires
        outcomes.len() <= 3,
    ensures
        match out {
            RevsetStep::Use(r) => accepted(outcomes@) matches Some(i) && r@ == revsets()[i],
            RevsetStep::Try(r) => accepted(outcomes@) is None && outcomes.len() < 3 && r@
                == revsets()[outcomes.len() as int],
            RevsetStep::Unusable => accepted(outcomes@) is None && outcomes.len() == 3,
        },
{
    let mut i: usize = 0;
    while i < outcomes.len()
        invariant
            i <= outcomes.len(),
            outcomes.len() <= 3,
            accepted(outcomes@.take(i as int)) is None,
        decreases outcomes.len() - i,
    {
        proof {
            assert(outcomes@.take(i + 1).drop_last() =~= outcomes@.take(i as int));
        }
        if outcomes[i] {
            proof {
                lemma_accepted_stays(outcomes@, i + 1);
            }
            return RevsetStep::Use(revset(i));
        }
        i += 1;
    }
    assert(outcomes@.take(i as int) =~= outcomes@);
    if outcomes.len() < 3 {
        RevsetStep::Try(revset(outcomes.len()))
    } else {
        RevsetStep::Unusable
    }
}

proof fn lemma_accepted_stays(outcomes: Seq<bool>, k: int)
    requires
        0 <= k <= outcomes.len(),
        accepted(outcomes.take(k)) is Some,
    ensures
        accepted(outcomes) == accepted(outcomes.take(k)),
    decreases outcomes.len(),
{
    if k == outcomes.len() {
        assert(outcomes.take(k) =~= outcomes);
    } else {
        assert(outcomes.drop_last().take(k) =~= outcomes.take(k));
        lemma_accepted_stays(outcomes.drop_last(), k);
    }
}

/// The arguments that ask jj whether it knows a revision set.
pub open spec fn probe_command(revset: Seq<char>) -> Seq<Seq<char>> {
    seq!["--ignore-working-copy"@, "log"@, "--no-graph"@, "-r"@, revset, "-T"@, "\"\""@]
}

/// The arguments that ask jj whether it knows a revision set.
pub fn probe_args(revset: &str) -> (out: Vec<String>)
    ensures
        out.deep_view() == probe_command(revset@),
{
    let mut out: Vec<String> = Vec::new();
    out.push("--ignore-working-copy".to_owned());
    out.push("log".to_owned());
    out.push("--no-graph".to_owned());
    out.push("-r".to_owned());
    out.push(revset.to_owned());
    out.push("-T".to_owned());
    out.push("\"\"".to_owned());
    assert(out.deep_view() =~= probe_command(revset@));
    out
}

/// The arguments of a log: `how` it is drawn, of which revisions, by which template.
pub open spec fn log_command(
    how: Seq<char>,
    revset: Option<Seq<char>>,
    template: Seq<char>,
) -> Seq<Seq<char>> {
    seq!["--ignore-working-copy"@, "log"@, how] + (match revset {
        Some(r) => seq!["-r"@, r],
        None => seq![],
    }) + seq!["-T"@, template]
}

fn log_args(how: &str, revset: Option<&str>, template: &str) -> (out: Vec<String>)
    ensures
        out.deep_view() == log_command(
            how@,
            match revset {
                Some(r) => Some(r@),
                None => None,
            },
            template@,
        ),
{
    let mut out: Vec<String> = Vec::new();
    out.push("--ignore-working-copy".to_owned());
    out.push("log".to_owned());
    out.push(how.to_owned());
    if let Some(r) = revset {
        out.push("-r".to_owned());
        out.push(r.to_owned());
    }
    out.push("-T".to_owned());
    out.push(template.to_owned());
    proof {
        let rv = match revset {
            Some(r) => Some(r@),
            None => None,
        };
        assert(out.deep_view() =~= log_command(how@, rv, template@));
    }
    out
}

/// The arguments of the log with the graph; jj's default revisions where none are given.
pub fn graph_log_args(revset: Option<&str>) -> (out: Vec<String>)
    ensures
        out.deep_view() == log_command(
            "--color=never"@,
            match revset {
                Some(r) => Some(r@),
                None => None,
            },
            TEMPLATE@,
        ),
{
    log_args("--color=never", revset, TEMPLATE)
}

/// The arguments of the log with the descriptions.
pub fn trailer_log_args(revset: Option<&str>) -> (out: Vec<String>)
    ensures
        out.deep_view() == log_command(
            "--no-graph"@,
            match revset {
                Some(r) => Some(r@),
                None => None,
            },
            TRAILER_TEMPLATE@,
        ),
{
    log_args("--no-graph", revset, TRAILER_TEMPLATE)
}

/// The arguments of a log of just these commits, with the graph among them; `None` where there
/// are none to draw.
pub fn log_revs_args(commit_ids: &Vec<String>) -> (out: Option<Vec<String>>)
    ensures
        match out {
            Some(args) => commit_ids.len() > 0 && args.deep_view() == log_command(
                "--color=never"@,
                Some(text::joined(commit_ids.deep_view(), "|"@)),
                TEMPLATE@,
            ),
            None => commit_ids.len() == 0,
        },
        match out {
            Some(args) => args.deep_view().len() == 7 && ((forall|i: int|
                0 <= i < commit_ids.len() ==> !(#[trigger] commit_ids.deep_view()[i]).contains('|'))
                ==> text::pieces(args.deep_view()[4], '|') == commit_ids.deep_view()),
            None => true,
        },
{
    if commit_ids.len() == 0 {
        return None;
    }
    proof {
        reveal_strlit("|");
        assert("|"@ =~= seq!['|']);
        if forall|i: int|
            0 <= i < commit_ids.len() ==> !(#[trigger] commit_ids.deep_view()[i]).contains('|') {
            text::law_joined_is_split(commit_ids.deep_view(), '|');
        }
    }
    let revset = text::join(commit_ids, "|");
    proof {
        law_log_command("--color=never"@, Some(revset@), TEMPLATE@);
    }
    Some(graph_log_args(Some(revset.as_str())))
}

/// The log of just these commits, from the output that `log_revs_args` asked for; no lines where
/// there are no commits to draw.
pub fn log_revs(commit_ids: &Vec<String>, graph: &[u8]) -> (out: Option<Vec<LogLine>>)
    ensures
        match out {
            Some(lines) => if commit_ids.len() == 0 {
                lines@.len() == 0
            } else {
                log_is_clean(text::utf8_lossy(graph@)) && lines.deep_view() == graph_rows(
                    text::line_list(text::utf8_lossy(graph@)),
                )
            },
            None => commit_ids.len() > 0 && !log_is_clean(text::utf8_lossy(graph@)),
        },
{
    if commit_ids.len() == 0 {
        return Some(Vec::new());
    }
    run_graph_log(graph)
}

// ---------------------------------------------------------------------------------------------
// What the log has to do with what jj printed

/// A line that is read as a commit holds five fields, with a separator between each two, and the
/// commit says what they say.
pub proof fn law_row_says(line: Seq<char>) -> (out: (
    Seq<char>,
    Seq<char>,
    Seq<char>,
    Seq<char>,
    Seq<char>,
))
    requires
        graph_row(line).commit is Some,
    ensures
        ({
            let (before, id, flag, list, title) = out;
            let l = graph_row(line);
            let c = l.commit->0;
            let sep = seq!['\x1f'];
            &&& line == before + sep + (id + sep + (flag + sep + (list + sep + title)))
            &&& !before.contains('\x1f') && !id.contains('\x1f') && !flag.contains('\x1f')
                && !list.contains('\x1f')
            &&& vstd::utf8::encode_utf8(id).len() >= 12
            &&& l.graph + c.change_id == before
            &&& c.change_id.len() == 12 || c.change_id.len() == 0
            &&& c.commit_id == id
            &&& c.empty <==> flag == seq!['1']
            &&& c.title == text::trimmed(title)
            &&& list.len() == 0 <==> c.parents.len() == 0
            &&& text::joined(c.parents, seq![',']) == list
            &&& forall|i: int| 0 <= i < c.parents.len() ==> !(#[trigger] c.parents[i]).contains(',')
            &&& c.pr_url is None && c.pr_number is None && c.is_draft is None && c.pr_title is None
                && c.pr_state is None && c.review_decision is None
        }),
{
    text::law_cut(line, UNIT);
    let (before, after) = text::cut(line, UNIT)->0;
    text::law_cut(after, UNIT);
    assert(text::cut(after, UNIT) is Some);
    let (id, x) = text::cut(after, UNIT)->0;
    text::law_cut(x, UNIT);
    assert(text::first_pieces(after, UNIT, 4) == seq![id] + text::first_pieces(x, UNIT, 3));
    assert(text::cut(x, UNIT) is Some);
    let (flag, y) = text::cut(x, UNIT)->0;
    text::law_cut(y, UNIT);
    assert(text::first_pieces(x, UNIT, 3) == seq![flag] + text::first_pieces(y, UNIT, 2));
    assert(text::cut(y, UNIT) is Some);
    let (list, title) = text::cut(y, UNIT)->0;
    lemma_four_fields(id, flag, list, title);
    law_graph_and_id_are_all(before);
    assert("1"@ =~= seq!['1']) by {
        reveal_strlit("1");
    }
    if list.len() > 0 {
        text::law_split_is_joined(list, ',');
        assert forall|i: int| 0 <= i < parent_ids(list).len() implies !(#[trigger] parent_ids(
            list,
        )[i]).contains(',') by {
            text::lemma_pieces_are_free(list, ',', i);
        }
    } else {
        assert(text::joined(parent_ids(list), seq![',']) =~= list);
    }
    (before, id, flag, list, title)
}

/// A line with five fields, of which the second has twelve bytes or more, is read as a commit;
/// with a shorter one it is graph, all of it.
pub proof fn law_five_fields_are_a_commit(
    before: Seq<char>,
    id: Seq<char>,
    flag: Seq<char>,
    list: Seq<char>,
    title: Seq<char>,
)
    requires
        !before.contains('\x1f'),
        !id.contains('\x1f'),
        !flag.contains('\x1f'),
        !list.contains('\x1f'),
    ensures
        ({
            let sep = seq!['\x1f'];
            let line = before + sep + (id + sep + (flag + sep + (list + sep + title)));
            let l = graph_row(line);
            &&& l.commit is Some <==> vstd::utf8::encode_utf8(id).len() >= 12
            &&& l.commit is None ==> l.graph == line
        }),
{
    text::lemma_cut_joined(before, id + seq![UNIT] + (flag + seq![UNIT] + (list + seq![UNIT] + title)), UNIT);
    lemma_four_fields(id, flag, list, title);
}

/// What stands in front of the first separator ends in the change ID where its last twelve
/// characters are letters and digits; otherwise there is no change ID, and all of it is graph.
pub proof fn law_change_id(graph: Seq<char>, id: Seq<char>)
    requires
        id.len() == 12,
    ensures
        (forall|i: int|
            0 <= i < 12 ==> 'a' <= #[trigger] id[i] <= 'z' || 'A' <= id[i] <= 'Z' || '0' <= id[i]
                <= '9') ==> graph_and_id(graph + id) == (graph, id),
        (exists|i: int|
            0 <= i < 12 && !('a' <= #[trigger] id[i] <= 'z' || 'A' <= id[i] <= 'Z' || '0' <= id[i]
                <= '9')) ==> graph_and_id(graph + id) == (graph + id, Seq::<char>::empty()),
{
    let b = graph + id;
    assert(b.take(b.len() - 12) =~= graph);
    assert(b.skip(b.len() - 12) =~= id);
    assert forall|i: int| 0 <= i < 12 implies #[trigger] id[i] == b[graph.len() + i] by {}
    if forall|i: int|
        0 <= i < 12 ==> 'a' <= #[trigger] id[i] <= 'z' || 'A' <= id[i] <= 'Z' || '0' <= id[i] <= '9' {
        assert forall|j: int| b.len() - 12 <= j < b.len() implies text::is_alphanumeric(
            #[trigger] b[j],
        ) by {
            assert(b[j] == id[j - graph.len()]);
        }
    } else {
        let i = choose|i: int|
            0 <= i < 12 && !('a' <= #[trigger] id[i] <= 'z' || 'A' <= id[i] <= 'Z' || '0' <= id[i]
                <= '9');
        assert(b[graph.len() + i] == id[i]);
        assert(!text::is_alphanumeric(b[graph.len() + i]));
    }
}

/// Too short a text holds no change ID.
pub proof fn law_no_room_for_a_change_id(before: Seq<char>)
    requires
        before.len() < 12,
    ensures
        graph_and_id(before) == (before, Seq::<char>::empty()),
{
}

/// A line that is not read as a commit is graph, all of it.
pub proof fn law_connector_is_all_graph(line: Seq<char>)
    requires
        graph_row(line).commit is None,
    ensures
        graph_row(line).graph == line,
{
}

/// Two logs, one behind the other, are read one behind the other. Of one line the carriage returns
/// at its end are dropped, and where nothing else stands on it, it says nothing.
pub proof fn law_log_line_by_line(a: Seq<Seq<char>>, b: Seq<Seq<char>>, line: Seq<char>, end: Seq<char>)
    requires
        line.len() > 0 ==> line.last() != '\r',
        forall|i: int| 0 <= i < end.len() ==> #[trigger] end[i] == '\r',
    ensures
        graph_rows(a + b) == graph_rows(a) + graph_rows(b),
        line.len() > 0 ==> graph_rows(seq![line + end]) == seq![graph_row(line)],
        graph_rows(seq![end]) == Seq::<LogLineView>::empty(),
{
    lemma_rows_of_two(a, b);
    text::lemma_dropped(line, end, '\r');
    text::lemma_dropped(Seq::empty(), end, '\r');
    assert(Seq::<char>::empty() + end =~= end);
    let one = seq![line + end];
    assert(one.drop_last() =~= Seq::empty());
    assert(graph_rows(one.drop_last()) =~= Seq::empty());
    let none = seq![end];
    assert(none.drop_last() =~= Seq::empty());
    assert(graph_rows(none.drop_last()) =~= Seq::empty());
    assert(graph_rows(none) =~= Seq::empty());
    if line.len() > 0 {
        assert(graph_rows(one) =~= seq![graph_row(line)]);
    }
}

proof fn lemma_rows_of_two(a: Seq<Seq<char>>, b: Seq<Seq<char>>)
    ensures
        graph_rows(a + b) == graph_rows(a) + graph_rows(b),
    decreases b.len(),
{
    if b.len() == 0 {
        assert(a + b =~= a);
        assert(graph_rows(a) + graph_rows(b) =~= graph_rows(a));
    } else {
        let t = b.drop_last();
        lemma_rows_of_two(a, t);
        assert((a + b).drop_last() =~= a + t);
        assert((a + b).last() == b.last());
        assert(graph_rows(a + b) =~= graph_rows(a) + graph_rows(b));
    }
}

/// A description's pull request is the one on the first line that starts, behind white space, with
/// `Pull Request:`.
pub proof fn law_first_trailer(lines: Seq<Seq<char>>, i: int, rest: Seq<char>)
    requires
        0 <= i < lines.len(),
        text::trimmed(lines[i]) == "Pull Request:"@ + rest,
        forall|j: int|
            0 <= j < i ==> !"Pull Request:"@.is_prefix_of(text::trimmed(#[trigger] lines[j])),
    ensures
        first_trailer(lines) == Some(text::trimmed(rest)),
    decreases lines.len(),
{
    text::law_prefix_and_suffix(text::trimmed(lines[i]), "Pull Request:"@, rest);
    if i > 0 {
        assert(!"Pull Request:"@.is_prefix_of(text::trimmed(lines[0])));
        let t = lines.drop_first();
        assert forall|j: int| 0 <= j < i - 1 implies !"Pull Request:"@.is_prefix_of(
            text::trimmed(#[trigger] t[j]),
        ) by {
            assert(t[j] == lines[j + 1]);
        }
        law_first_trailer(t, i - 1, rest);
    }
}

/// Where no line starts with `Pull Request:`, there is no pull request.
pub proof fn law_no_trailer(lines: Seq<Seq<char>>)
    requires
        forall|j: int|
            0 <= j < lines.len() ==> !"Pull Request:"@.is_prefix_of(
                text::trimmed(#[trigger] lines[j]),
            ),
    ensures
        first_trailer(lines) is None,
    decreases lines.len(),
{
    if lines.len() > 0 {
        assert(!"Pull Request:"@.is_prefix_of(text::trimmed(lines[0])));
        let t = lines.drop_first();
        assert forall|j: int| 0 <= j < t.len() implies !"Pull Request:"@.is_prefix_of(
            text::trimmed(#[trigger] t[j]),
        ) by {
            assert(t[j] == lines[j + 1]);
        }
        law_no_trailer(t);
    }
}

/// A record names a pull request only where a separator stands in it, and then under the ID in
/// front of the first one, without the line feeds before the ID; the pull request is the
/// description's behind it.
pub proof fn law_record_says(id: Seq<char>, description: Seq<char>, feeds: Seq<char>)
    requires
        !id.contains('\x1f'),
        id.len() > 0 ==> id[0] != '\n',
        forall|i: int| 0 <= i < feeds.len() ==> #[trigger] feeds[i] == '\n',
    ensures
        trailer_of(id) is None,
        match first_trailer(text::line_list(description)) {
            Some(url) => trailer_of(feeds + id + seq!['\x1f'] + description) == Some((id, url)),
            None => trailer_of(feeds + id + seq!['\x1f'] + description) is None,
        },
{
    text::lemma_one_piece(id, UNIT);
    let front = feeds + id;
    let record = front + seq![UNIT] + description;
    assert(!front.contains(UNIT)) by {
        if front.contains(UNIT) {
            let k = choose|k: int| 0 <= k < front.len() && front[k] == UNIT;
            if k < feeds.len() {
                assert(feeds[k] == UNIT);
            } else {
                assert(id[k - feeds.len()] == UNIT);
            }
        }
    }
    text::lemma_cut_joined(front, description, UNIT);
    let p = text::only('\n');
    assert forall|j: int| 0 <= j < feeds.len() implies p(#[trigger] front[j]) by {
        assert(front[j] == feeds[j]);
    }
    if id.len() > 0 {
        assert(front[feeds.len() as int] == id[0]);
    }
    text::lemma_head_run(front, p, feeds.len() as int);
    assert(text::drop_leading(front, '\n') =~= id);
    assert(record[front.len() as int] == UNIT);
    text::lemma_not_all_white(record, front.len() as int);
}

/// Two trailer logs, one behind the other, are read one behind the other, and a record by itself
/// gives the pull request that it names, if it names one.
pub proof fn law_trailers_record_by_record(
    a: Seq<Seq<char>>,
    b: Seq<Seq<char>>,
    record: Seq<char>,
)
    ensures
        trailer_list(a + b) == trailer_list(a) + trailer_list(b),
        match trailer_of(record) {
            Some(t) => trailer_list(seq![record]) == seq![t],
            None => trailer_list(seq![record]).len() == 0,
        },
    decreases b.len(),
{
    let one = seq![record];
    assert(one.drop_last() =~= Seq::empty());
    assert(trailer_list(one.drop_last()) =~= Seq::empty());
    match trailer_of(record) {
        Some(t) => {
            assert(trailer_list(one) =~= seq![t]);
        },
        None => {},
    }
    if b.len() == 0 {
        assert(a + b =~= a);
        assert(trailer_list(a) + trailer_list(b) =~= trailer_list(a));
    } else {
        let t = b.drop_last();
        law_trailers_record_by_record(a, t, record);
        assert((a + b).drop_last() =~= a + t);
        assert((a + b).last() == b.last());
        assert(trailer_list(a + b) =~= trailer_list(a) + trailer_list(b));
    }
}

/// A pull request's number is what stands behind the last slash of its URL, whatever stands before
/// it and however many slashes stand at the end.
pub proof fn law_pr_number(front: Seq<char>, number: Seq<char>, slashes: Seq<char>)
    requires
        number.len() > 0,
        !number.contains('/'),
        forall|i: int| 0 <= i < slashes.len() ==> #[trigger] slashes[i] == '/',
    ensures
        pr_number_of(front + seq!['/'] + number + slashes) == text::parsed_number(number),
        pr_number_of(number + slashes) == text::parsed_number(number),
{
    let url = front + seq!['/'] + number;
    assert(number[number.len() - 1] != '/');
    assert(url.last() == number.last());
    text::lemma_dropped(url, slashes, '/');
    text::lemma_dropped(number, slashes, '/');
    text::lemma_pieces_push(front, number, '/');
    text::lemma_one_piece(number, '/');
}

/// Attaching pull requests keeps every line and its graph, and all that a commit says but for the
/// URL and the number of its pull request.
pub proof fn law_attaching_keeps_the_rest(
    lines: Seq<LogLineView>,
    trailers: Seq<(Seq<char>, Seq<char>)>,
)
    ensures
        lines_with_prs(lines, trailers).len() == lines.len(),
        forall|i: int|
            0 <= i < lines.len() ==> (#[trigger] lines_with_prs(lines, trailers)[i]).graph
                == lines[i].graph && (lines_with_prs(lines, trailers)[i].commit is Some
                <==> lines[i].commit is Some),
        forall|i: int|
            0 <= i < lines.len() && lines[i].commit is Some ==> ({
                let new = (#[trigger] lines_with_prs(lines, trailers)[i]).commit->0;
                let old_commit = lines[i].commit->0;
                &&& new.change_id == old_commit.change_id
                &&& new.commit_id == old_commit.commit_id
                &&& new.empty == old_commit.empty
                &&& new.title == old_commit.title
                &&& new.parents == old_commit.parents
                &&& new.is_draft == old_commit.is_draft
                &&& new.pr_title == old_commit.pr_title
                &&& new.pr_state == old_commit.pr_state
                &&& new.review_decision == old_commit.review_decision
            }),
{
}

/// The log agrees with the graph log as it is read, line by line and field by field, but for the
/// URL and the number of the pull requests, whatever the trailer log says.
pub proof fn law_stack_keeps_the_graph_log(trailer: Option<Seq<u8>>, graph: Seq<u8>)
    ensures
        ({
            let read = graph_rows(text::line_list(text::utf8_lossy(graph)));
            let log = log_of(trailer, graph);
            &&& log.len() == read.len()
            &&& forall|i: int|
                0 <= i < read.len() ==> (#[trigger] log[i]).graph == read[i].graph && (
                log[i].commit is Some <==> read[i].commit is Some)
            &&& forall|i: int|
                0 <= i < read.len() && read[i].commit is Some ==> {
                    &&& (#[trigger] log[i]).commit->0.change_id == read[i].commit->0.change_id
                    &&& log[i].commit->0.commit_id == read[i].commit->0.commit_id
                    &&& log[i].commit->0.empty == read[i].commit->0.empty
                    &&& log[i].commit->0.title == read[i].commit->0.title
                    &&& log[i].commit->0.parents == read[i].commit->0.parents
                    &&& log[i].commit->0.is_draft == read[i].commit->0.is_draft
                    &&& log[i].commit->0.pr_title == read[i].commit->0.pr_title
                    &&& log[i].commit->0.pr_state == read[i].commit->0.pr_state
                    &&& log[i].commit->0.review_decision == read[i].commit->0.review_decision
                }
        }),
{
    let read = graph_rows(text::line_list(text::utf8_lossy(graph)));
    law_attaching_keeps_the_rest(read, trailers_in(trailer));
}

/// A commit gets the pull request of the last trailer under its change ID.
pub proof fn law_last_trailer_is_attached(
    lines: Seq<LogLineView>,
    trailers: Seq<(Seq<char>, Seq<char>)>,
    i: int,
    k: int,
)
    requires
        0 <= i < lines.len(),
        lines[i].commit is Some,
        0 <= k < trailers.len(),
        trailers[k].0 == lines[i].commit->0.change_id,
        forall|j: int|
            k < j < trailers.len() ==> (#[trigger] trailers[j]).0 != lines[i].commit->0.change_id,
    ensures
        lines_with_prs(lines, trailers)[i].commit->0.pr_url == Some(trailers[k].1),
        lines_with_prs(lines, trailers)[i].commit->0.pr_number == pr_number_of(trailers[k].1),
{
    lemma_url_at(trailers, lines[i].commit->0.change_id, k);
}

proof fn lemma_url_at(trailers: Seq<(Seq<char>, Seq<char>)>, id: Seq<char>, k: int)
    requires
        0 <= k < trailers.len(),
        trailers[k].0 == id,
        forall|j: int| k < j < trailers.len() ==> (#[trigger] trailers[j]).0 != id,
    ensures
        url_of(trailers, id) == Some(trailers[k].1),
    decreases trailers.len(),
{
    if k < trailers.len() - 1 {
        let t = trailers.drop_last();
        assert(trailers[trailers.len() - 1] == trailers.last());
        assert forall|j: int| k < j < t.len() implies (#[trigger] t[j]).0 != id by {
            assert(t[j] == trailers[j]);
        }
        lemma_url_at(t, id, k);
    }
}

/// A line whose change ID no trailer names stays as it is, and so does one without a commit.
pub proof fn law_without_trailer_unchanged(
    lines: Seq<LogLineView>,
    trailers: Seq<(Seq<char>, Seq<char>)>,
    i: int,
)
    requires
        0 <= i < lines.len(),
        lines[i].commit is Some ==> forall|j: int|
            0 <= j < trailers.len() ==> (#[trigger] trailers[j]).0 != lines[i].commit->0.change_id,
    ensures
        lines_with_prs(lines, trailers)[i] == lines[i],
{
    if lines[i].commit is Some {
        lemma_no_url(trailers, lines[i].commit->0.change_id);
    }
}

proof fn lemma_no_url(trailers: Seq<(Seq<char>, Seq<char>)>, id: Seq<char>)
    requires
        forall|j: int| 0 <= j < trailers.len() ==> (#[trigger] trailers[j]).0 != id,
    ensures
        url_of(trailers, id) is None,
    decreases trailers.len(),
{
    if trailers.len() > 0 {
        let t = trailers.drop_last();
        assert(trailers[trailers.len() - 1] == trailers.last());
        assert forall|j: int| 0 <= j < t.len() implies (#[trigger] t[j]).0 != id by {
            assert(t[j] == trailers[j]);
        }
        lemma_no_url(t, id);
    }
}

/// Where the trailer log failed, the log is the graph log as it is read.
pub proof fn law_failed_trailer_log(graph: Seq<u8>)
    ensures
        log_of(None, graph) == graph_rows(text::line_list(text::utf8_lossy(graph))),
{
    let read = graph_rows(text::line_list(text::utf8_lossy(graph)));
    assert(log_of(None, graph) =~= read);
}

/// The revision set taken is the first that jj accepts, and none is taken while jj accepts none.
pub proof fn law_first_accepted(outcomes: Seq<bool>)
    ensures
        match accepted(outcomes) {
            Some(i) => 0 <= i < outcomes.len() && outcomes[i] && forall|j: int|
                0 <= j < i ==> !#[trigger] outcomes[j],
            None => forall|j: int| 0 <= j < outcomes.len() ==> !#[trigger] outcomes[j],
        },
    decreases outcomes.len(),
{
    if outcomes.len() > 0 {
        let t = outcomes.drop_last();
        law_first_accepted(t);
        match accepted(t) {
            Some(i) => {
                assert forall|j: int| 0 <= j < i implies !#[trigger] outcomes[j] by {
                    assert(!t[j]);
                }
            },
            None => {
                assert forall|j: int| 0 <= j < outcomes.len() - 1 implies !#[trigger] outcomes[j] by {
                    assert(!t[j]);
                }
            },
        }
    }
}

/// Whatever a log is asked for, jj leaves the working copy alone, and the revisions, where they are
/// given, stand behind `-r` and the template behind `-T`, at the end.
pub proof fn law_log_command(how: Seq<char>, revset: Option<Seq<char>>, template: Seq<char>)
    ensures
        ({
            let c = log_command(how, revset, template);
            &&& c[0] == "--ignore-working-copy"@ && c[1] == "log"@ && c[2] == how
            &&& c[c.len() - 2] == "-T"@ && c.last() == template
            &&& match revset {
                Some(r) => c.len() == 7 && c[3] == "-r"@ && c[4] == r,
                None => c.len() == 5,
            }
        }),
{
}

proof fn lemma_boundary(a: Seq<char>, b: Seq<char>)
    ensures
        vstd::utf8::encode_utf8(a + b) == vstd::utf8::encode_utf8(a) + vstd::utf8::encode_utf8(b),
        vstd::utf8::is_char_boundary(
            vstd::utf8::encode_utf8(a + b),
            vstd::utf8::encode_utf8(a).len() as int,
        ),
    decreases a.len(),
{
    let all = a + b;
    let bytes = vstd::utf8::encode_utf8(all);
    vstd::utf8::encode_utf8_valid_utf8(all);
    if a.len() == 0 {
        assert(all =~= b);
        assert(vstd::utf8::encode_utf8(a) + vstd::utf8::encode_utf8(b)
            =~= vstd::utf8::encode_utf8(b));
    } else {
        let t = a.drop_first();
        assert(all.drop_first() =~= t + b);
        assert(all[0] == a[0]);
        lemma_boundary(t, b);
        let head = vstd::utf8::encode_scalar(a[0] as u32);
        assert(bytes =~= head + vstd::utf8::encode_utf8(t + b));
        assert(bytes =~= vstd::utf8::encode_utf8(a) + vstd::utf8::encode_utf8(b));
        vstd::utf8::encode_utf8_first_scalar(all);
        assert(vstd::utf8::pop_first_scalar(bytes) =~= vstd::utf8::encode_utf8(t + b));
    }
}

/// A change ID can be cut off where what stands in front of the separator ends in characters that
/// take twelve bytes together, or is shorter than that; and nowhere else.
pub proof fn law_room_for_a_change_id(before: Seq<char>)
    ensures
        vstd::utf8::encode_utf8(before).len() < 12 ==> id_starts_clean(before),
        forall|a: Seq<char>, b: Seq<char>|
            before == #[trigger] (a + b) && vstd::utf8::encode_utf8(b).len() == 12
                ==> id_starts_clean(before),
        id_starts_clean(before) && vstd::utf8::encode_utf8(before).len() >= 12 ==> exists|a: Seq<char>, b: Seq<char>|
            before == #[trigger] (a + b) && vstd::utf8::encode_utf8(b).len() == 12,
{
    let bytes = vstd::utf8::encode_utf8(before);
    let n = bytes.len() as int;
    assert forall|a: Seq<char>, b: Seq<char>|
        before == #[trigger] (a + b) && vstd::utf8::encode_utf8(b).len() == 12 implies id_starts_clean(
        before,
    ) by {
        lemma_boundary(a, b);
    }
    if id_starts_clean(before) && n >= 12 {
        vstd::utf8::encode_utf8_valid_utf8(before);
        vstd::utf8::decode_utf8_split(bytes, n - 12);
        vstd::utf8::valid_utf8_split(bytes, n - 12);
        vstd::utf8::encode_utf8_decode_utf8(before);
        let a = vstd::utf8::decode_utf8(bytes.subrange(0, n - 12));
        let b = vstd::utf8::decode_utf8(bytes.subrange(n - 12, n));
        vstd::utf8::decode_utf8_encode_utf8(bytes.subrange(n - 12, n));
        assert(before == a + b);
    }
}

/// A log can be read where on each of its lines twelve ASCII letters and digits stand in front of
/// the first separator, if there is one: as jj writes them, whatever the graph looks like.
pub proof fn law_written_log_can_be_read(lines: Seq<Seq<char>>)
    requires
        forall|i: int| 0 <= i < lines.len() ==> is_log_line(#[trigger] lines[i]),
        forall|i: int|
            0 <= i < lines.len() && (#[trigger] lines[i]).contains('\x1f') ==> exists|
                graph: Seq<char>,
                id: Seq<char>,
                rest: Seq<char>,
            |
                lines[i] == #[trigger] (graph + id + seq!['\x1f'] + rest) && !graph.contains('\x1f')
                    && is_short_id(id),
    ensures
        log_is_clean(text::terminated(lines)),
{
    assert forall|i: int| 0 <= i < lines.len() implies !(#[trigger] lines[i]).contains('\n') && !(
    lines[i].len() > 0 && lines[i].last() == '\r') by {
        assert(is_log_line(lines[i]));
    }
    text::law_lines_are_read_back(lines);
    assert forall|i: int| 0 <= i < lines.len() implies row_is_clean(
        text::drop_trailing(#[trigger] lines[i], '\r'),
    ) by {
        let line = lines[i];
        assert(is_log_line(line));
        text::lemma_dropped(line, Seq::empty(), '\r');
        assert(line + Seq::<char>::empty() =~= line);
        if line.contains('\x1f') {
            let (graph, id, rest) = choose|graph: Seq<char>, id: Seq<char>, rest: Seq<char>|
                line == #[trigger] (graph + id + seq!['\x1f'] + rest) && !graph.contains('\x1f')
                    && is_short_id(id);
            lemma_written_row_is_clean(graph, id, rest);
        } else {
            text::lemma_one_piece(line, UNIT);
        }
    }
}

proof fn lemma_written_row_is_clean(graph: Seq<char>, id: Seq<char>, rest: Seq<char>)
    requires
        !graph.contains(UNIT),
        is_short_id(id),
    ensures
        row_is_clean(graph + id + seq![UNIT] + rest),
{
    let before = graph + id;
    assert(!before.contains(UNIT)) by {
        if before.contains(UNIT) {
            let k = choose|k: int| 0 <= k < before.len() && before[k] == UNIT;
            if k < graph.len() {
                assert(graph[k] == UNIT);
            } else {
                assert(text::is_alphanumeric(id[k - graph.len()]));
            }
        }
    }
    text::lemma_cut_joined(before, rest, UNIT);
    assert(vstd::utf8::is_ascii_chars(id)) by {
        assert forall|i: int| 0 <= i < id.len() implies '\0' <= #[trigger] id[i] <= '\u{7f}' by {
            assert(text::is_alphanumeric(id[i]));
        }
    }
    vstd::utf8::is_ascii_chars_encode_utf8(id);
    law_room_for_a_change_id(before);
    assert(before == graph + id);
}

/// jj is asked whether it knows a revision set by a log of it, without the graph, that prints
/// nothing.
pub proof fn law_probe_is_a_log(revset: Seq<char>)
    ensures
        probe_command(revset) == log_command("--no-graph"@, Some(revset), "\"\""@),
{
    assert(probe_command(revset) =~= log_command("--no-graph"@, Some(revset), "\"\""@));
}

/// Each revision set is what stands between some trunk and the working copy: jj's own first, then
/// `main`, then `master`.
pub proof fn law_revsets(i: int)
    requires
        0 <= i < revsets().len(),
    ensures
        revsets().len() == 3,
        revsets()[i] == seq!["trunk()"@, "main"@, "master"@][i] + "..@"@,
{
    reveal_strlit("trunk()..@");
    reveal_strlit("main..@");
    reveal_strlit("master..@");
    reveal_strlit("trunk()");
    reveal_strlit("main");
    reveal_strlit("master");
    reveal_strlit("..@");
    assert(revsets()[0] =~= "trunk()"@ + "..@"@);
    assert(revsets()[1] =~= "main"@ + "..@"@);
    assert(revsets()[2] =~= "master"@ + "..@"@);
}

} // verus!
