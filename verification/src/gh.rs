//! Pull requests as GitHub reports them: their URLs, their metadata, and the map from one to the
//! other.
use vstd::prelude::*;

use crate::text;

verus! {

/// Where a pull request stands.
#[derive(Debug, Clone, Copy, PartialEq, Eq, Structural)]
pub enum PrState {
    Open,
    Closed,
    Merged,
}

/// Whether it may be merged, as far as that was decided.
#[derive(Debug, Clone, Copy, PartialEq, Eq, Structural)]
pub enum ReviewDecision {
    Approved,
    ChangesRequested,
    ReviewRequired,
    Undecided,
}

/// What is known of one pull request.
#[derive(Debug)]
pub struct PrInfo {
    pub is_draft: bool,
    pub title: String,
    pub state: PrState,
    pub review_decision: ReviewDecision,
}

/// The content of a `PrInfo`.
pub struct PrInfoView {
    pub is_draft: bool,
    pub title: Seq<char>,
    pub state: PrState,
    pub review_decision: ReviewDecision,
}

impl DeepView for PrInfo {
    type V = PrInfoView;

    open spec fn deep_view(&self) -> PrInfoView {
        PrInfoView {
            is_draft: self.is_draft,
            title: self.title@,
            state: self.state,
            review_decision: self.review_decision,
        }
    }
}

impl Clone for PrInfo {
    fn clone(&self) -> (out: Self)
        ensures
            out.deep_view() == self.deep_view(),
    {
        PrInfo {
            is_draft: self.is_draft,
            title: self.title.clone(),
            state: self.state,
            review_decision: self.review_decision,
        }
    }
}

/// The owner, the repository and the number that a pull request's URL names.
pub open spec fn pr_url_parts(url: Seq<char>) -> Option<(Seq<char>, Seq<char>, u64)> {
    let rest = match text::after_prefix(url, "https://github.com/"@) {
        Some(rest) => Some(rest),
        None => text::after_prefix(url, "http://github.com/"@),
    };
    match rest {
        None => None,
        Some(rest) => {
            let parts = text::pieces(text::drop_trailing(rest, '/'), '/');
            if parts.len() == 4 && (parts[2] == "pull"@ || parts[2] == "pulls"@) {
                match text::parsed_number(parts[3]) {
                    Some(n) => Some((parts[0], parts[1], n)),
                    None => None,
                }
            } else {
                None
            }
        },
    }
}

/// Parses a URL like `https://github.com/<owner>/<repo>/pull/<n>` into its components; `http`,
/// `pulls` and slashes at the end are as good. Returns `None` for any other URL shape.
pub fn parse_pr_url(url: &str) -> (out: Option<(String, String, u64)>)
    ensures
        out.deep_view() == pr_url_parts(url@),
{
    let u = text::chars_of(url);
    let rest: &[char] = match text::strip_prefix(u.as_slice(), "https://github.com/") {
        Some(rest) => rest,
        None => match text::strip_prefix(u.as_slice(), "http://github.com/") {
            Some(rest) => rest,
            None => {
                return None;
            },
        },
    };
    let parts = text::split(text::trim_end(rest, '/'), '/');
    let ghost v = text::views(parts@);
    if parts.len() != 4 {
        return None;
    }
    assert(v[2] == parts@[2]@ && v[3] == parts@[3]@ && v[0] == parts@[0]@ && v[1] == parts@[1]@);
    if !text::is_text(parts[2], "pull") && !text::is_text(parts[2], "pulls") {
        return None;
    }
    match text::parse_number(parts[3]) {
        Some(n) => Some((text::text_of(parts[0]), text::text_of(parts[1]), n)),
        None => None,
    }
}

/// The URL of a pull request on GitHub.
pub open spec fn pr_url(owner: Seq<char>, repo: Seq<char>, number: u64) -> Seq<char> {
    "https://github.com/"@ + (owner + seq!['/'] + (repo + seq!['/'] + ("pull"@ + seq!['/']
        + text::decimal(number as nat))))
}

/// Four texts without slashes, with slashes between them, are split into these four; there is
/// nothing to trim at the end where the last is not empty.
proof fn lemma_four_pieces(a: Seq<char>, b: Seq<char>, c: Seq<char>, d: Seq<char>)
    requires
        !a.contains('/'),
        !b.contains('/'),
        !c.contains('/'),
        !d.contains('/'),
        d.len() > 0,
    ensures
        ({
            let s = a + seq!['/'] + (b + seq!['/'] + (c + seq!['/'] + d));
            text::drop_trailing(s, '/') == s && text::pieces(s, '/') == seq![a, b, c, d]
        }),
{
    let t = c + seq!['/'] + d;
    let u = b + seq!['/'] + t;
    let s = a + seq!['/'] + u;
    assert(t.last() == d.last() && u.last() == t.last() && s.last() == u.last());
    assert(d.contains(d.last()));
    text::lemma_tail_run(s, text::only('/'), 0);
    assert(text::drop_trailing(s, '/') =~= s);
    text::lemma_pieces_joined(a, u, '/');
    text::lemma_pieces_joined(b, t, '/');
    text::lemma_pieces_joined(c, d, '/');
    text::lemma_one_piece(d, '/');
    assert(text::pieces(s, '/') =~= seq![a, b, c, d]);
}

/// The URL of a pull request leads back to its owner, its repository and its number.
pub proof fn law_pr_url_is_read_back(owner: Seq<char>, repo: Seq<char>, number: u64)
    requires
        !owner.contains('/'),
        !repo.contains('/'),
    ensures
        pr_url_parts(pr_url(owner, repo, number)) == Some((owner, repo, number)),
{
    let prefix = "https://github.com/"@;
    let n = text::decimal(number as nat);
    let pull = "pull"@;
    let rest = owner + seq!['/'] + (repo + seq!['/'] + (pull + seq!['/'] + n));
    text::law_number_is_read_back(number);
    assert(!pull.contains('/')) by {
        reveal_strlit("pull");
    }
    lemma_four_pieces(owner, repo, pull, n);
    assert((prefix + rest).subrange(0, prefix.len() as int) =~= prefix);
    assert((prefix + rest).skip(prefix.len() as int) =~= rest);
    assert(text::after_prefix(prefix + rest, prefix) == Some(rest));
}

/// Neither the owner nor the repository that a URL names holds a slash.
pub proof fn law_parsed_names_have_no_slash(url: Seq<char>)
    ensures
        match pr_url_parts(url) {
            Some((owner, repo, _)) => !owner.contains('/') && !repo.contains('/'),
            None => true,
        },
{
    if pr_url_parts(url) is Some {
        let rest = match text::after_prefix(url, "https://github.com/"@) {
            Some(rest) => rest,
            None => text::after_prefix(url, "http://github.com/"@)->0,
        };
        let s = text::drop_trailing(rest, '/');
        text::lemma_pieces_are_free(s, '/', 0);
        text::lemma_pieces_are_free(s, '/', 1);
    }
}

// ---------------------------------------------------------------------------------------------
// The map of pull requests

/// A pull request's place: owner, repository and number.
pub type PrKey = (Seq<char>, Seq<char>, u64);

/// Pull requests by owner, repository and number; no key occurs twice.
#[derive(Debug)]
pub struct PrMap {
    entries: Vec<((String, String, u64), PrInfo)>,
}

impl PrMap {
    /// The key of the entry at `i`.
    pub closed spec fn key_at(self, i: int) -> PrKey {
        self.entries@[i].0.deep_view()
    }

    /// How many entries there are.
    pub closed spec fn size(self) -> nat {
        self.entries@.len()
    }

    /// What the entry at `i` holds.
    pub closed spec fn info_at(self, i: int) -> PrInfoView {
        self.entries@[i].1.deep_view()
    }

    /// No key occurs twice.
    pub open spec fn wf(self) -> bool {
        forall|i: int, j: int|
            0 <= i < j < self.size() ==> #[trigger] self.key_at(i) != #[trigger] self.key_at(j)
    }

    /// Whether some entry has the key `k`.
    pub open spec fn has(self, k: PrKey) -> bool {
        exists|i: int| 0 <= i < self.size() && #[trigger] self.key_at(i) == k
    }
}

impl View for PrMap {
    type V = Map<PrKey, PrInfoView>;

    open spec fn view(&self) -> Map<PrKey, PrInfoView> {
        Map::new(
            |k: PrKey| self.has(k),
            |k: PrKey| self.info_at(choose|i: int| 0 <= i < self.size() && #[trigger] self.key_at(i) == k),
        )
    }
}

impl PrMap {
    /// In a map without repeated keys the entry at `i` is what its key leads to.
    proof fn lemma_entry(self, i: int)
        requires
            self.wf(),
            0 <= i < self.size(),
        ensures
            self@.contains_key(self.key_at(i)),
            self@[self.key_at(i)] == self.info_at(i),
    {
        let k = self.key_at(i);
        let j = choose|j: int| 0 <= j < self.size() && #[trigger] self.key_at(j) == k;
        assert(self.has(k));
        if j < i {
            assert(self.key_at(j) != self.key_at(i));
        } else if i < j {
            assert(self.key_at(i) != self.key_at(j));
        }
    }

    /// A map without pull requests.
    pub fn new() -> (out: PrMap)
        ensures
            out.wf(),
            out@ == Map::<PrKey, PrInfoView>::empty(),
            out.size() == 0,
    {
        let out = PrMap { entries: Vec::new() };
        assert(out@ =~= Map::<PrKey, PrInfoView>::empty());
        out
    }

    /// How many pull requests are known.
    pub fn len(&self) -> (n: usize)
        requires
            self.wf(),
        ensures
            n == self@.len(),
            self@.dom().finite(),
    {
        proof {
            self.lemma_size(self.size() as int);
            assert(self@.dom() =~= self.keys_below(self.size() as int));
        }
        self.entries.len()
    }

    /// Whether no pull request is known.
    pub fn is_empty(&self) -> (b: bool)
        ensures
            b == (self@ == Map::<PrKey, PrInfoView>::empty()),
    {
        let b = self.entries.len() == 0;
        proof {
            if b {
                assert(self@ =~= Map::<PrKey, PrInfoView>::empty());
            } else {
                assert(self.has(self.key_at(0)));
                assert(self@.contains_key(self.key_at(0)));
            }
        }
        b
    }

    /// The keys of the entries before `n`.
    spec fn keys_below(self, n: int) -> Set<PrKey> {
        Set::new(|k: PrKey| exists|i: int| 0 <= i < n && #[trigger] self.key_at(i) == k)
    }

    proof fn lemma_size(self, n: int)
        requires
            self.wf(),
            0 <= n <= self.size(),
        ensures
            self.keys_below(n).finite(),
            self.keys_below(n).len() == n,
        decreases n,
    {
        if n == 0 {
            assert(self.keys_below(0) =~= Set::empty());
        } else {
            self.lemma_size(n - 1);
            let k = self.key_at(n - 1);
            assert(!self.keys_below(n - 1).contains(k));
            assert(self.keys_below(n) =~= self.keys_below(n - 1).insert(k));
        }
    }

    /// Where the key stands, or the number of entries.
    fn position(&self, owner: &String, repo: &String, number: u64) -> (i: usize)
        ensures
            i <= self.size(),
            i < self.size() ==> self.key_at(i as int) == (owner@, repo@, number),
            i == self.size() ==> !self.has((owner@, repo@, number)),
    {
        let mut i: usize = 0;
        while i < self.entries.len()
            invariant
                i <= self.entries.len(),
                forall|j: int| 0 <= j < i ==> #[trigger] self.key_at(j) != (owner@, repo@, number),
            decreases self.entries.len() - i,
        {
            let key = &self.entries[i].0;
            if key.2 == number && key.0 == *owner && key.1 == *repo {
                return i;
            }
            i += 1;
        }
        i
    }

    /// What is known of a pull request.
    pub fn get(&self, owner: &String, repo: &String, number: u64) -> (out: Option<&PrInfo>)
        requires
            self.wf(),
        ensures
            match out {
                Some(info) => self@.contains_key((owner@, repo@, number)) && self@[(
                    owner@,
                    repo@,
                    number,
                )] == info.deep_view(),
                None => !self@.contains_key((owner@, repo@, number)),
            },
    {
        let i = self.position(owner, repo, number);
        if i < self.entries.len() {
            proof {
                self.lemma_entry(i as int);
            }
            Some(&self.entries[i].1)
        } else {
            None
        }
    }

    /// Records what is known of a pull request, in place of what was known before.
    pub fn insert(&mut self, owner: String, repo: String, number: u64, info: PrInfo)
        requires
            old(self).wf(),
        ensures
            final(self).wf(),
            final(self)@ == old(self)@.insert((owner@, repo@, number), info.deep_view()),
    {
        let ghost k = (owner@, repo@, number);
        let ghost before = *self;
        let i = self.position(&owner, &repo, number);
        if i < self.entries.len() {
            self.entries.set(i, ((owner, repo, number), info));
        } else {
            self.entries.push(((owner, repo, number), info));
        }
        proof {
            assert(self.key_at(i as int) == k);
            assert forall|a: int| 0 <= a < before.size() implies #[trigger] self.key_at(a)
                == before.key_at(a) by {}
            assert forall|a: int| 0 <= a < self.size() && a != i implies #[trigger] self.info_at(a)
                == before.info_at(a) by {}
            assert(self.wf());
            assert forall|q: PrKey| self@.contains_key(q) <==> #[trigger] before@.insert(
                k,
                info.deep_view(),
            ).contains_key(q) by {
                if before.has(q) {
                    let a = choose|a: int| 0 <= a < before.size() && #[trigger] before.key_at(a) == q;
                    assert(self.key_at(a) == q);
                }
                if self.has(q) && q != k {
                    let a = choose|a: int| 0 <= a < self.size() && #[trigger] self.key_at(a) == q;
                    assert(before.key_at(a) == q);
                }
            }
            assert forall|q: PrKey| self@.contains_key(q) implies #[trigger] self@[q]
                == before@.insert(k, info.deep_view())[q] by {
                let a = choose|a: int| 0 <= a < self.size() && #[trigger] self.key_at(a) == q;
                self.lemma_entry(a);
                if q == k {
                    self.lemma_entry(i as int);
                } else {
                    before.lemma_entry(a);
                }
            }
            assert(self@ =~= before@.insert(k, info.deep_view()));
        }
    }
}

impl Clone for PrMap {
    fn clone(&self) -> (out: Self)
        ensures
            self.wf() ==> out.wf() && out@ == self@,
    {
        let mut entries: Vec<((String, String, u64), PrInfo)> = Vec::new();
        let mut i: usize = 0;
        while i < self.entries.len()
            invariant
                i <= self.entries.len(),
                entries.len() == i,
                forall|j: int|
                    #![trigger entries@[j]]
                    0 <= j < i ==> entries@[j].0.deep_view() == self.key_at(j)
                        && entries@[j].1.deep_view() == self.info_at(j),
            decreases self.entries.len() - i,
        {
            let e = &self.entries[i];
            let key = (e.0.0.clone(), e.0.1.clone(), e.0.2);
            let info = e.1.clone();
            assert(key.deep_view() == self.key_at(i as int));
            entries.push((key, info));
            i += 1;
        }
        let out = PrMap { entries };
        proof {
            assert forall|j: int| 0 <= j < self.size() implies #[trigger] out.key_at(j)
                == self.key_at(j) by {}
            assert forall|j: int| 0 <= j < self.size() implies #[trigger] out.info_at(j)
                == self.info_at(j) by {}
            assert forall|k: PrKey| out.has(k) == self.has(k) by {
                if self.has(k) {
                    let j = choose|j: int| 0 <= j < self.size() && #[trigger] self.key_at(j) == k;
                    assert(out.key_at(j) == k);
                }
                if out.has(k) {
                    let j = choose|j: int| 0 <= j < out.size() && #[trigger] out.key_at(j) == k;
                    assert(self.key_at(j) == k);
                }
            }
            if self.wf() {
                assert forall|k: PrKey| self@.contains_key(k) implies #[trigger] out@[k]
                    == self@[k] by {
                    let j = choose|j: int| 0 <= j < self.size() && #[trigger] self.key_at(j) == k;
                    self.lemma_entry(j);
                    out.lemma_entry(j);
                }
                assert(out@ =~= self@);
            }
        }
        out
    }
}

// ---------------------------------------------------------------------------------------------
// Replies of `gh pr list`

/// One row of `gh pr list`: a pull request with its state and review decision as GitHub spells
/// them.
#[derive(Debug)]
pub struct PrRow {
    pub number: u64,
    pub is_draft: bool,
    pub title: String,
    pub state: String,
    pub review_decision: String,
}

/// The content of a `PrRow`.
pub struct PrRowView {
    pub number: u64,
    pub is_draft: bool,
    pub title: Seq<char>,
    pub state: Seq<char>,
    pub review_decision: Seq<char>,
}

impl DeepView for PrRow {
    type V = PrRowView;

    open spec fn deep_view(&self) -> PrRowView {
        PrRowView {
            number: self.number,
            is_draft: self.is_draft,
            title: self.title@,
            state: self.state@,
            review_decision: self.review_decision@,
        }
    }
}

/// What `gh pr list` said of one repository.
#[derive(Debug)]
pub struct RepoReply {
    pub owner: String,
    pub repo: String,
    pub rows: Vec<PrRow>,
}

/// The content of a `RepoReply`.
pub struct RepoReplyView {
    pub owner: Seq<char>,
    pub repo: Seq<char>,
    pub rows: Seq<PrRowView>,
}

impl DeepView for RepoReply {
    type V = RepoReplyView;

    open spec fn deep_view(&self) -> RepoReplyView {
        RepoReplyView { owner: self.owner@, repo: self.repo@, rows: self.rows.deep_view() }
    }
}

/// The state that `s` spells; an unknown one counts as open.
pub open spec fn state_of(s: Seq<char>) -> PrState {
    if s == "MERGED"@ {
        PrState::Merged
    } else if s == "CLOSED"@ {
        PrState::Closed
    } else {
        PrState::Open
    }
}

/// The decision that `s` spells; an unknown one counts as none taken.
pub open spec fn decision_of(s: Seq<char>) -> ReviewDecision {
    if s == "APPROVED"@ {
        ReviewDecision::Approved
    } else if s == "CHANGES_REQUESTED"@ {
        ReviewDecision::ChangesRequested
    } else if s == "REVIEW_REQUIRED"@ {
        ReviewDecision::ReviewRequired
    } else {
        ReviewDecision::Undecided
    }
}

/// What a row says of its pull request.
pub open spec fn row_info(r: PrRowView) -> PrInfoView {
    PrInfoView {
        is_draft: r.is_draft,
        title: r.title,
        state: state_of(r.state),
        review_decision: decision_of(r.review_decision),
    }
}

/// `m` with the rows of one repository entered, a later row in place of an earlier one.
pub open spec fn with_rows(
    m: Map<PrKey, PrInfoView>,
    owner: Seq<char>,
    repo: Seq<char>,
    rows: Seq<PrRowView>,
) -> Map<PrKey, PrInfoView>
    decreases rows.len(),
{
    if rows.len() == 0 {
        m
    } else {
        with_rows(m, owner, repo, rows.drop_last()).insert(
            (owner, repo, rows.last().number),
            row_info(rows.last()),
        )
    }
}

/// The pull requests of all `replies`.
pub open spec fn reply_map(replies: Seq<RepoReplyView>) -> Map<PrKey, PrInfoView>
    decreases replies.len(),
{
    if replies.len() == 0 {
        Map::empty()
    } else {
        let r = replies.last();
        with_rows(reply_map(replies.drop_last()), r.owner, r.repo, r.rows)
    }
}

/// Reads a state.
pub fn parse_state(s: &str) -> (out: PrState)
    ensures
        out == state_of(s@),
{
    if text::same_text(s, "MERGED") {
        PrState::Merged
    } else if text::same_text(s, "CLOSED") {
        PrState::Closed
    } else {
        PrState::Open
    }
}

/// Reads a review decision.
pub fn parse_decision(s: &str) -> (out: ReviewDecision)
    ensures
        out == decision_of(s@),
{
    if text::same_text(s, "APPROVED") {
        ReviewDecision::Approved
    } else if text::same_text(s, "CHANGES_REQUESTED") {
        ReviewDecision::ChangesRequested
    } else if text::same_text(s, "REVIEW_REQUIRED") {
        ReviewDecision::ReviewRequired
    } else {
        ReviewDecision::Undecided
    }
}

/// Enters the rows of one repository.
fn add_rows(map: &mut PrMap, owner: &String, repo: &String, rows: &Vec<PrRow>)
    requires
        old(map).wf(),
    ensures
        final(map).wf(),
        final(map)@ == with_rows(old(map)@, owner@, repo@, rows.deep_view()),
{
    let ghost all = rows.deep_view();
    let ghost before = map@;
    let mut i: usize = 0;
    while i < rows.len()
        invariant
            i <= rows.len(),
            all == rows.deep_view(),
            map.wf(),
            map@ == with_rows(before, owner@, repo@, all.take(i as int)),
        decreases rows.len() - i,
    {
        let r = &rows[i];
        let info = PrInfo {
            is_draft: r.is_draft,
            title: r.title.clone(),
            state: parse_state(r.state.as_str()),
            review_decision: parse_decision(r.review_decision.as_str()),
        };
        proof {
            let t = all.take(i + 1);
            assert(t.drop_last() =~= all.take(i as int));
            assert(t.last() == r.deep_view());
            assert(info.deep_view() == row_info(r.deep_view()));
        }
        map.insert(owner.clone(), repo.clone(), r.number, info);
        i += 1;
    }
    assert(all.take(i as int) =~= all);
}

/// The pull requests that the replies of `gh pr list` tell of, one reply for each repository
/// that answered. Closed and merged ones are among them. A pull request that no reply lists is
/// absent.
pub fn fetch_pr_map(replies: &Vec<RepoReply>) -> (out: PrMap)
    ensures
        out.wf(),
        out@ == reply_map(replies.deep_view()),
{
    let ghost all = replies.deep_view();
    let mut out = PrMap::new();
    let mut i: usize = 0;
    while i < replies.len()
        invariant
            i <= replies.len(),
            all == replies.deep_view(),
            out.wf(),
            out@ == reply_map(all.take(i as int)),
        decreases replies.len() - i,
    {
        let r = &replies[i];
        add_rows(&mut out, &r.owner, &r.repo, &r.rows);
        i += 1;
        proof {
            let t = all.take(i as int);
            assert(t.drop_last() =~= all.take(i - 1));
            assert(t.last() == r.deep_view());
        }
    }
    assert(all.take(i as int) =~= all);
    out
}

/// Whether a reply lists the pull request `k`.
pub open spec fn lists(reply: RepoReplyView, k: PrKey) -> bool {
    reply.owner == k.0 && reply.repo == k.1 && exists|i: int|
        0 <= i < reply.rows.len() && (#[trigger] reply.rows[i]).number == k.2
}

proof fn lemma_rows_entered(
    m: Map<PrKey, PrInfoView>,
    owner: Seq<char>,
    repo: Seq<char>,
    rows: Seq<PrRowView>,
    k: PrKey,
)
    ensures
        with_rows(m, owner, repo, rows).contains_key(k) <==> m.contains_key(k) || (owner == k.0
            && repo == k.1 && exists|i: int| 0 <= i < rows.len() && (#[trigger] rows[i]).number == k.2),
    decreases rows.len(),
{
    if rows.len() > 0 {
        let t = rows.drop_last();
        lemma_rows_entered(m, owner, repo, t, k);
        if exists|i: int| 0 <= i < t.len() && (#[trigger] t[i]).number == k.2 {
            let i = choose|i: int| 0 <= i < t.len() && (#[trigger] t[i]).number == k.2;
            assert(rows[i].number == k.2);
        }
        if exists|i: int| 0 <= i < rows.len() && (#[trigger] rows[i]).number == k.2 {
            let i = choose|i: int| 0 <= i < rows.len() && (#[trigger] rows[i]).number == k.2;
            if i < t.len() {
                assert(t[i].number == k.2);
            }
        }
        assert(rows[rows.len() - 1] == rows.last());
    }
}

/// A pull request is known exactly where a reply lists it.
pub proof fn law_listed_is_known(replies: Seq<RepoReplyView>, k: PrKey)
    ensures
        reply_map(replies).contains_key(k) <==> exists|i: int|
            0 <= i < replies.len() && lists(#[trigger] replies[i], k),
    decreases replies.len(),
{
    if replies.len() > 0 {
        let t = replies.drop_last();
        let r = replies.last();
        law_listed_is_known(t, k);
        lemma_rows_entered(reply_map(t), r.owner, r.repo, r.rows, k);
        assert(replies[replies.len() - 1] == r);
        if exists|i: int| 0 <= i < t.len() && lists(#[trigger] t[i], k) {
            let i = choose|i: int| 0 <= i < t.len() && lists(#[trigger] t[i], k);
            assert(lists(replies[i], k));
        }
        if exists|i: int| 0 <= i < replies.len() && lists(#[trigger] replies[i], k) {
            let i = choose|i: int| 0 <= i < replies.len() && lists(#[trigger] replies[i], k);
            if i < t.len() {
                assert(lists(t[i], k));
            }
        }
    }
}

/// The arguments of `gh` that list the pull requests of `owner/repo`.
pub open spec fn pr_list_command(owner: Seq<char>, repo: Seq<char>) -> Seq<Seq<char>> {
    seq![
        "pr"@,
        "list"@,
        "--repo"@,
        owner + "/"@ + repo,
        "--state"@,
        "all"@,
        "--json"@,
        "number,isDraft,title,state,reviewDecision"@,
        "--limit"@,
        "500"@,
    ]
}

/// The name of a repository as `gh` takes it.
pub fn repo_slug(owner: &str, repo: &str) -> (out: String)
    ensures
        out@ == owner@ + "/"@ + repo@,
{
    let mut out = owner.to_owned();
    out.append("/");
    out.append(repo);
    out
}

/// The arguments of `gh` that list the pull requests of `owner/repo`.
pub fn pr_list_args(owner: &str, repo: &str) -> (out: Vec<String>)
    ensures
        out.deep_view() == pr_list_command(owner@, repo@),
{
    let mut out: Vec<String> = Vec::new();
    out.push("pr".to_owned());
    out.push("list".to_owned());
    out.push("--repo".to_owned());
    out.push(repo_slug(owner, repo));
    out.push("--state".to_owned());
    out.push("all".to_owned());
    out.push("--json".to_owned());
    out.push("number,isDraft,title,state,reviewDecision".to_owned());
    out.push("--limit".to_owned());
    out.push("500".to_owned());
    assert(out.deep_view() =~= pr_list_command(owner@, repo@));
    out
}

/// A text spells a state or a decision only as GitHub does, letter by letter; all others count as
/// open, and as no decision.
pub proof fn law_spellings(s: Seq<char>)
    ensures
        state_of(s) == PrState::Merged <==> s == "MERGED"@,
        state_of(s) == PrState::Closed <==> s == "CLOSED"@,
        state_of(s) == PrState::Open <==> s != "MERGED"@ && s != "CLOSED"@,
        decision_of(s) == ReviewDecision::Approved <==> s == "APPROVED"@,
        decision_of(s) == ReviewDecision::ChangesRequested <==> s == "CHANGES_REQUESTED"@,
        decision_of(s) == ReviewDecision::ReviewRequired <==> s == "REVIEW_REQUIRED"@,
        decision_of(s) == ReviewDecision::Undecided <==> s != "APPROVED"@ && s
            != "CHANGES_REQUESTED"@ && s != "REVIEW_REQUIRED"@,
{
    reveal_strlit("MERGED");
    reveal_strlit("CLOSED");
    reveal_strlit("APPROVED");
    reveal_strlit("CHANGES_REQUESTED");
    reveal_strlit("REVIEW_REQUIRED");
    assert("MERGED"@[0] != "CLOSED"@[0]);
    assert("APPROVED"@[0] != "CHANGES_REQUESTED"@[0]);
    assert("APPROVED"@[0] != "REVIEW_REQUIRED"@[0]);
    assert("CHANGES_REQUESTED"@[0] != "REVIEW_REQUIRED"@[0]);
}

/// Of a pull request that `rows` lists, the entry is what the last of its rows says: draft or not,
/// the title as it stands there, and the state and the decision that the row spells.
pub proof fn law_last_row_is_entered(
    m: Map<PrKey, PrInfoView>,
    owner: Seq<char>,
    repo: Seq<char>,
    rows: Seq<PrRowView>,
    i: int,
)
    requires
        0 <= i < rows.len(),
        forall|j: int| i < j < rows.len() ==> (#[trigger] rows[j]).number != rows[i].number,
    ensures
        with_rows(m, owner, repo, rows).contains_key((owner, repo, rows[i].number)),
        ({
            let e = with_rows(m, owner, repo, rows)[(owner, repo, rows[i].number)];
            &&& e.is_draft == rows[i].is_draft
            &&& e.title == rows[i].title
            &&& e.state == PrState::Merged <==> rows[i].state == "MERGED"@
            &&& e.state == PrState::Closed <==> rows[i].state == "CLOSED"@
            &&& e.review_decision == ReviewDecision::Approved <==> rows[i].review_decision
                == "APPROVED"@
            &&& e.review_decision == ReviewDecision::ChangesRequested <==> rows[i].review_decision
                == "CHANGES_REQUESTED"@
            &&& e.review_decision == ReviewDecision::ReviewRequired <==> rows[i].review_decision
                == "REVIEW_REQUIRED"@
        }),
    decreases rows.len(),
{
    if i < rows.len() - 1 {
        let t = rows.drop_last();
        assert(rows[rows.len() - 1] == rows.last());
        assert forall|j: int| i < j < t.len() implies (#[trigger] t[j]).number != t[i].number by {
            assert(rows[j].number != rows[i].number);
        }
        law_last_row_is_entered(m, owner, repo, t, i);
    } else {
        law_spellings(rows[i].state);
        law_spellings(rows[i].review_decision);
    }
}

/// Rows leave the entries of all other pull requests as they were: those of other repositories,
/// and those whose numbers no row has.
pub proof fn law_rows_leave_the_others(
    m: Map<PrKey, PrInfoView>,
    owner: Seq<char>,
    repo: Seq<char>,
    rows: Seq<PrRowView>,
    k: PrKey,
)
    requires
        k.0 != owner || k.1 != repo || forall|j: int|
            0 <= j < rows.len() ==> (#[trigger] rows[j]).number != k.2,
    ensures
        with_rows(m, owner, repo, rows).contains_key(k) <==> m.contains_key(k),
        with_rows(m, owner, repo, rows)[k] == m[k],
    decreases rows.len(),
{
    if rows.len() > 0 {
        let t = rows.drop_last();
        assert(rows[rows.len() - 1] == rows.last());
        if k.0 == owner && k.1 == repo {
            assert forall|j: int| 0 <= j < t.len() implies (#[trigger] t[j]).number != k.2 by {
                assert(rows[j].number != k.2);
            }
        }
        law_rows_leave_the_others(m, owner, repo, t, k);
        assert((owner, repo, rows.last().number) != k);
    }
}

/// Of a pull request that a reply lists, the map's entry is what the last row that lists it says,
/// in whichever reply it stands.
pub proof fn law_last_reply_is_known(replies: Seq<RepoReplyView>, a: int, i: int)
    requires
        0 <= a < replies.len(),
        0 <= i < replies[a].rows.len(),
        forall|j: int|
            i < j < replies[a].rows.len() ==> (#[trigger] replies[a].rows[j]).number
                != replies[a].rows[i].number,
        forall|b: int|
            a < b < replies.len() ==> (#[trigger] replies[b]).owner != replies[a].owner
                || replies[b].repo != replies[a].repo || forall|j: int|
                0 <= j < replies[b].rows.len() ==> (#[trigger] replies[b].rows[j]).number
                    != replies[a].rows[i].number,
    ensures
        ({
            let r = replies[a].rows[i];
            let k = (replies[a].owner, replies[a].repo, r.number);
            let e = reply_map(replies)[k];
            &&& reply_map(replies).contains_key(k)
            &&& e.is_draft == r.is_draft
            &&& e.title == r.title
            &&& e.state == PrState::Merged <==> r.state == "MERGED"@
            &&& e.state == PrState::Closed <==> r.state == "CLOSED"@
            &&& e.review_decision == ReviewDecision::Approved <==> r.review_decision == "APPROVED"@
            &&& e.review_decision == ReviewDecision::ChangesRequested <==> r.review_decision
                == "CHANGES_REQUESTED"@
            &&& e.review_decision == ReviewDecision::ReviewRequired <==> r.review_decision
                == "REVIEW_REQUIRED"@
        }),
    decreases replies.len(),
{
    let t = replies.drop_last();
    let l = replies.last();
    assert(replies[replies.len() - 1] == l);
    if a < replies.len() - 1 {
        assert(t[a] == replies[a]);
        assert forall|b: int| a < b < t.len() implies (#[trigger] t[b]).owner != t[a].owner
            || t[b].repo != t[a].repo || forall|j: int|
            0 <= j < t[b].rows.len() ==> (#[trigger] t[b].rows[j]).number != t[a].rows[i].number by {
            assert(t[b] == replies[b]);
        }
        law_last_reply_is_known(t, a, i);
        let k = (replies[a].owner, replies[a].repo, replies[a].rows[i].number);
        law_rows_leave_the_others(reply_map(t), l.owner, l.repo, l.rows, k);
    } else {
        law_last_row_is_entered(reply_map(t), l.owner, l.repo, l.rows, i);
    }
}

/// A URL in any of the forms GitHub has for a pull request is read: with `http` or `https`, with
/// `pull` or `pulls`, and with any number of slashes at the end. It names a pull request where its
/// last part is a number.
pub proof fn law_pr_url_forms(
    prefix: Seq<char>,
    owner: Seq<char>,
    repo: Seq<char>,
    word: Seq<char>,
    number: Seq<char>,
    slashes: Seq<char>,
)
    requires
        prefix == "https://github.com/"@ || prefix == "http://github.com/"@,
        word == "pull"@ || word == "pulls"@,
        !owner.contains('/'),
        !repo.contains('/'),
        !number.contains('/'),
        number.len() > 0,
        forall|i: int| 0 <= i < slashes.len() ==> #[trigger] slashes[i] == '/',
    ensures
        pr_url_parts(
            prefix + (owner + seq!['/'] + (repo + seq!['/'] + (word + seq!['/'] + number)))
                + slashes,
        ) == match text::parsed_number(number) {
            Some(n) => Some((owner, repo, n)),
            None => None,
        },
{
    let path = owner + seq!['/'] + (repo + seq!['/'] + (word + seq!['/'] + number));
    let rest = path + slashes;
    let url = prefix + path + slashes;
    assert(url =~= prefix + rest);
    assert(!word.contains('/')) by {
        reveal_strlit("pull");
        reveal_strlit("pulls");
    }
    lemma_four_pieces(owner, repo, word, number);
    assert(number[number.len() - 1] != '/');
    assert(path.last() == number.last());
    text::lemma_dropped(path, slashes, '/');
    text::law_prefix_and_suffix(url, prefix, rest);
    if prefix != "https://github.com/"@ {
        assert(!"https://github.com/"@.is_prefix_of(url)) by {
            reveal_strlit("https://github.com/");
            reveal_strlit("http://github.com/");
            assert(url[4] == "http://github.com/"@[4]);
            if "https://github.com/"@.is_prefix_of(url) {
                assert("https://github.com/"@[4] == url[4]);
            }
        }
    }
}

/// A URL that names a pull request has one of these forms, and no other.
pub proof fn law_pr_url_has_a_form(url: Seq<char>) -> (out: (
    Seq<char>,
    Seq<char>,
    Seq<char>,
    Seq<char>,
))
    requires
        pr_url_parts(url) is Some,
    ensures
        ({
            let (prefix, word, number, slashes) = out;
            match pr_url_parts(url) {
                Some((owner, repo, n)) => {
                    &&& prefix == "https://github.com/"@ || prefix == "http://github.com/"@
                    &&& word == "pull"@ || word == "pulls"@
                    &&& text::parsed_number(number) == Some(n)
                    &&& !owner.contains('/') && !repo.contains('/') && !number.contains('/')
                    &&& forall|i: int| 0 <= i < slashes.len() ==> #[trigger] slashes[i] == '/'
                    &&& url == prefix + (owner + seq!['/'] + (repo + seq!['/'] + (word + seq!['/']
                        + number))) + slashes
                },
                None => false,
            }
        }),
{
    let prefix = if "https://github.com/"@.is_prefix_of(url) {
        "https://github.com/"@
    } else {
        "http://github.com/"@
    };
    let rest = url.skip(prefix.len() as int);
    assert(text::after_prefix(url, prefix) == Some(rest));
    text::law_prefix_and_suffix(url, prefix, rest);
    let path = text::drop_trailing(rest, '/');
    let parts = text::pieces(path, '/');
    let slashes = rest.skip(path.len() as int);
    text::law_drop_trailing(rest, '/');
    assert(rest =~= path + slashes);
    assert forall|i: int| 0 <= i < slashes.len() implies #[trigger] slashes[i] == '/' by {
        assert(slashes[i] == rest[path.len() + i]);
    }
    text::lemma_pieces_are_free(path, '/', 0);
    text::lemma_pieces_are_free(path, '/', 1);
    text::lemma_pieces_are_free(path, '/', 3);
    text::law_split_is_joined(path, '/');
    text::law_joined(parts, seq!['/']);
    let p1 = parts.drop_first();
    text::law_joined(p1, seq!['/']);
    let p2 = p1.drop_first();
    text::law_joined(p2, seq!['/']);
    let p3 = p2.drop_first();
    text::law_joined(p3, seq!['/']);
    assert(path == parts[0] + seq!['/'] + (parts[1] + seq!['/'] + (parts[2] + seq!['/']
        + parts[3])));
    assert(url =~= prefix + path + slashes);
    (prefix, parts[2], parts[3], slashes)
}

} // verus!
