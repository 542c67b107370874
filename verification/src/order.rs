//! The order of texts, and sorting by it without disturbing what is equal.
use vstd::prelude::*;

use crate::text;

verus! {

/// Whether `a` comes before `b`: at the first character in which they differ the code point
/// decides, and a text comes after those that it merely continues.
pub open spec fn text_lt(a: Seq<char>, b: Seq<char>) -> bool
    decreases a.len(),
{
    if b.len() == 0 {
        false
    } else if a.len() == 0 {
        true
    } else if a[0] == b[0] {
        text_lt(a.drop_first(), b.drop_first())
    } else {
        a[0] < b[0]
    }
}

/// A pair of texts to sort by; the second decides where the first ones are equal.
pub type Rank = (Seq<char>, Seq<char>);

/// Whether the rank `a` comes before `b`.
pub open spec fn rank_lt(a: Rank, b: Rank) -> bool {
    text_lt(a.0, b.0) || (a.0 == b.0 && text_lt(a.1, b.1))
}

/// No text comes before itself.
pub proof fn lemma_text_irreflexive(a: Seq<char>)
    ensures
        !text_lt(a, a),
    decreases a.len(),
{
    if a.len() > 0 {
        lemma_text_irreflexive(a.drop_first());
    }
}

/// What comes before a text comes before all that the text comes before.
pub proof fn lemma_text_transitive(a: Seq<char>, b: Seq<char>, c: Seq<char>)
    requires
        text_lt(a, b),
        text_lt(b, c),
    ensures
        text_lt(a, c),
    decreases a.len(),
{
    if a.len() > 0 && a[0] == b[0] && b[0] == c[0] {
        lemma_text_transitive(a.drop_first(), b.drop_first(), c.drop_first());
    }
}

/// Of two different texts one comes before the other.
pub proof fn lemma_text_total(a: Seq<char>, b: Seq<char>)
    ensures
        a == b || text_lt(a, b) || text_lt(b, a),
    decreases a.len(),
{
    if a.len() == 0 || b.len() == 0 {
        if a.len() == 0 && b.len() == 0 {
            assert(a =~= b);
        }
    } else if a[0] == b[0] {
        lemma_text_total(a.drop_first(), b.drop_first());
        if a.drop_first() == b.drop_first() {
            assert(a =~= seq![a[0]] + a.drop_first());
            assert(b =~= seq![b[0]] + b.drop_first());
        }
    }
}

/// The order of ranks is irreflexive, transitive and total.
pub proof fn lemma_rank_order()
    ensures
        forall|a: Rank| !#[trigger] rank_lt(a, a),
        forall|a: Rank, b: Rank, c: Rank|
            #[trigger] rank_lt(a, b) && #[trigger] rank_lt(b, c) ==> rank_lt(a, c),
        forall|a: Rank, b: Rank| a == b || #[trigger] rank_lt(a, b) || rank_lt(b, a),
{
    assert forall|a: Rank| !#[trigger] rank_lt(a, a) by {
        lemma_text_irreflexive(a.0);
        lemma_text_irreflexive(a.1);
    }
    assert forall|a: Rank, b: Rank, c: Rank|
        #[trigger] rank_lt(a, b) && #[trigger] rank_lt(b, c) implies rank_lt(a, c) by {
        if text_lt(a.0, b.0) && text_lt(b.0, c.0) {
            lemma_text_transitive(a.0, b.0, c.0);
        }
        if text_lt(a.1, b.1) && text_lt(b.1, c.1) {
            lemma_text_transitive(a.1, b.1, c.1);
        }
    }
    assert forall|a: Rank, b: Rank| a == b || #[trigger] rank_lt(a, b) || rank_lt(b, a) by {
        lemma_text_total(a.0, b.0);
        lemma_text_total(a.1, b.1);
    }
}

/// Whether the characters `a` come before `b`.
fn chars_before(a: &[char], b: &[char]) -> (r: bool)
    ensures
        r == text_lt(a@, b@),
{
    let mut i: usize = 0;
    assert(a@.skip(0) =~= a@ && b@.skip(0) =~= b@);
    loop
        invariant
            i <= a.len(),
            i <= b.len(),
            text_lt(a@, b@) == text_lt(a@.skip(i as int), b@.skip(i as int)),
        decreases a.len() - i,
    {
        if i >= b.len() {
            return false;
        }
        if i >= a.len() {
            return true;
        }
        if a[i] != b[i] {
            return a[i] < b[i];
        }
        assert(a@.skip(i as int).drop_first() =~= a@.skip(i + 1));
        assert(b@.skip(i as int).drop_first() =~= b@.skip(i + 1));
        i += 1;
    }
}

/// Whether the text `a` comes before `b`.
pub fn text_before(a: &str, b: &str) -> (r: bool)
    ensures
        r == text_lt(a@, b@),
{
    chars_before(text::chars_of(a).as_slice(), text::chars_of(b).as_slice())
}

/// Something that has a rank to be sorted by.
pub trait Ranked: DeepView {
    /// The rank of something with this content.
    spec fn rank_of(v: Self::V) -> Rank;

    /// Whether this comes before `other`.
    fn before(&self, other: &Self) -> (r: bool)
        ensures
            r == rank_lt(Self::rank_of(self.deep_view()), Self::rank_of(other.deep_view())),
    ;
}

/// `to` is `from` put in order by `rank`, where `p` says from which place each item came: every
/// item is there once, lower ranks come first, and equal ranks keep their order.
pub open spec fn sorted_by<V>(
    from: Seq<V>,
    to: Seq<V>,
    rank: spec_fn(V) -> Rank,
    p: Seq<int>,
) -> bool {
    &&& to.len() == from.len()
    &&& p.len() == from.len()
    &&& forall|i: int|
        #![trigger p[i]]
        #![trigger to[i]]
        0 <= i < p.len() ==> 0 <= p[i] < from.len() && to[i] == from[p[i]]
    &&& forall|k: int| 0 <= k < from.len() ==> p.contains(k)
    &&& forall|i: int, j: int|
        #![trigger p[i], p[j]]
        0 <= i < j < p.len() ==> rank_lt(rank(to[i]), rank(to[j])) || (rank(to[i]) == rank(to[j])
            && p[i] < p[j])
}

/// `to` is `from` put in order by `rank`, with equal ranks in the order that they had.
pub open spec fn stably_sorted<V>(from: Seq<V>, to: Seq<V>, rank: spec_fn(V) -> Rank) -> bool {
    exists|p: Seq<int>| sorted_by(from, to, rank, p)
}

/// There is one way only to put a sequence in order with equal ranks left as they were.
pub proof fn law_sorting_is_unique<V>(
    from: Seq<V>,
    a: Seq<V>,
    b: Seq<V>,
    rank: spec_fn(V) -> Rank,
)
    requires
        stably_sorted(from, a, rank),
        stably_sorted(from, b, rank),
    ensures
        a == b,
{
    let p = choose|p: Seq<int>| sorted_by(from, a, rank, p);
    let q = choose|q: Seq<int>| sorted_by(from, b, rank, q);
    lemma_same_places(from, a, b, rank, p, q, from.len() as int);
    assert(a =~= b);
}

/// Sorting keeps what there is and leaves nothing before what has a lower rank.
pub proof fn law_sorted<V>(from: Seq<V>, to: Seq<V>, rank: spec_fn(V) -> Rank)
    requires
        stably_sorted(from, to, rank),
    ensures
        to.len() == from.len(),
        to.to_set() == from.to_set(),
        forall|i: int, j: int|
            0 <= i < j < to.len() ==> !rank_lt(rank(#[trigger] to[j]), rank(#[trigger] to[i])),
{
    let p = choose|p: Seq<int>| sorted_by(from, to, rank, p);
    lemma_rank_order();
    assert forall|x: V| to.contains(x) <==> from.contains(x) by {
        if to.contains(x) {
            let i = choose|i: int| 0 <= i < to.len() && to[i] == x;
            assert(to[i] == from[p[i]]);
        }
        if from.contains(x) {
            let k = choose|k: int| 0 <= k < from.len() && from[k] == x;
            assert(p.contains(k));
            let i = choose|i: int| 0 <= i < p.len() && p[i] == k;
            assert(to[i] == from[p[i]]);
        }
    }
    assert(to.to_set() =~= from.to_set());
    assert forall|i: int, j: int| 0 <= i < j < to.len() implies !rank_lt(
        rank(#[trigger] to[j]),
        rank(#[trigger] to[i]),
    ) by {
        assert(rank_lt(rank(to[i]), rank(to[j])) || (rank(to[i]) == rank(to[j]) && p[i] < p[j]));
    }
}

proof fn lemma_same_places<V>(
    from: Seq<V>,
    a: Seq<V>,
    b: Seq<V>,
    rank: spec_fn(V) -> Rank,
    p: Seq<int>,
    q: Seq<int>,
    n: int,
)
    requires
        sorted_by(from, a, rank, p),
        sorted_by(from, b, rank, q),
        0 <= n <= from.len(),
    ensures
        forall|i: int| 0 <= i < n ==> #[trigger] p[i] == q[i] && a[i] == b[i],
    decreases n,
{
    if n > 0 {
        lemma_same_places(from, a, b, rank, p, q, n - 1);
        lemma_rank_order();
        let i = n - 1;
        if p[i] != q[i] {
            let x = rank(from[p[i]]);
            let y = rank(from[q[i]]);
            lemma_no_gap(from, a, b, rank, p, q, i);
            lemma_no_gap(from, b, a, rank, q, p, i);
            assert(x == y || rank_lt(x, y) || rank_lt(y, x));
        }
    }
}

/// Where two orders agree before `i`, neither can have a lower item at `i` than the other.
proof fn lemma_no_gap<V>(
    from: Seq<V>,
    a: Seq<V>,
    b: Seq<V>,
    rank: spec_fn(V) -> Rank,
    p: Seq<int>,
    q: Seq<int>,
    i: int,
)
    requires
        sorted_by(from, a, rank, p),
        sorted_by(from, b, rank, q),
        0 <= i < from.len(),
        forall|j: int| 0 <= j < i ==> #[trigger] p[j] == q[j],
        p[i] != q[i],
    ensures
        !rank_lt(rank(from[p[i]]), rank(from[q[i]])),
        rank(from[p[i]]) == rank(from[q[i]]) ==> p[i] >= q[i],
{
    lemma_rank_order();
    assert(q.contains(p[i]));
    let j = choose|j: int| 0 <= j < q.len() && q[j] == p[i];
    if j < i {
        assert(p[j] == p[i]);
        assert(a[j] == from[p[j]] && a[i] == from[p[i]]);
        assert(rank_lt(rank(a[j]), rank(a[i])) || (rank(a[j]) == rank(a[i]) && p[j] < p[i]));
    } else {
        assert(j > i);
        assert(b[i] == from[q[i]] && b[j] == from[q[j]]);
        assert(rank_lt(rank(b[i]), rank(b[j])) || (rank(b[i]) == rank(b[j]) && q[i] < q[j]));
    }
}

/// The rank function of a type.
pub open spec fn rank_fn<T: Ranked>() -> spec_fn(T::V) -> Rank {
    |v: T::V| T::rank_of(v)
}

/// Puts `items` in order by rank; equal ranks keep their order.
pub fn sort_by_rank<T: Ranked>(items: Vec<T>) -> (out: Vec<T>)
    ensures
        stably_sorted(items.deep_view(), out.deep_view(), rank_fn::<T>()),
{
    let ghost all = items.deep_view();
    let ghost rank = rank_fn::<T>();
    let mut rest = items;
    let mut out: Vec<T> = Vec::new();
    let ghost mut p: Seq<int> = seq![];
    proof {
        lemma_rank_order();
        assert(all.skip(all.len() as int) =~= seq![]);
        assert(out.deep_view() =~= seq![]);
    }
    loop
        invariant
            rank == rank_fn::<T>(),
            all == items.deep_view(),
            rest.len() <= all.len(),
            rest.deep_view() =~= all.take(rest.len() as int),
            placed(all, rest.len() as int, out.deep_view(), rank, p),
        ensures
            stably_sorted(all, out.deep_view(), rank),
        decreases rest.len(),
    {
        let ghost k = rest.len() as int;
        let ghost held = rest.deep_view();
        let ghost kept = rest@;
        match rest.pop() {
            None => {
                proof {
                    assert(sorted_by(all, out.deep_view(), rank, p));
                }
                break;
            },
            Some(x) => {
                let ghost old_out = out.deep_view();
                assert(held[k - 1] == all.take(k)[k - 1]);
                assert(x == kept[k - 1]);
                assert(x.deep_view() == all[k - 1]);
                let mut i: usize = 0;
                while i < out.len() && out[i].before(&x)
                    invariant
                        i <= out.len(),
                        rank == rank_fn::<T>(),
                        old_out == out.deep_view(),
                        forall|j: int|
                            0 <= j < i ==> rank_lt(rank(#[trigger] old_out[j]), rank(x.deep_view())),
                    decreases out.len() - i,
                {
                    i += 1;
                }
                proof {
                    if i < out.len() {
                        assert(!rank_lt(rank(old_out[i as int]), rank(x.deep_view())));
                    }
                    lemma_placed_step(all, k, old_out, rank, p, i as int);
                }
                let ghost xv = x.deep_view();
                out.insert(i, x);
                proof {
                    assert(out.deep_view() =~= old_out.insert(i as int, xv));
                    p = p.insert(i as int, k - 1);
                    assert(rest.deep_view() =~= held.drop_last());
                    assert(all.take(k).drop_last() =~= all.take(k - 1));
                }
            },
        }
    }
    out
}

/// The items of `from` from `k` on are in order in `to`.
spec fn placed<V>(from: Seq<V>, k: int, to: Seq<V>, rank: spec_fn(V) -> Rank, p: Seq<int>) -> bool {
    &&& 0 <= k <= from.len()
    &&& to.len() == from.len() - k
    &&& p.len() == to.len()
    &&& forall|i: int|
        #![trigger p[i]]
        #![trigger to[i]]
        0 <= i < p.len() ==> k <= p[i] < from.len() && to[i] == from[p[i]]
    &&& forall|m: int| k <= m < from.len() ==> p.contains(m)
    &&& forall|i: int, j: int|
        #![trigger p[i], p[j]]
        0 <= i < j < p.len() ==> rank_lt(rank(to[i]), rank(to[j])) || (rank(to[i]) == rank(to[j])
            && p[i] < p[j])
}

proof fn lemma_placed_step<V>(
    from: Seq<V>,
    k: int,
    to: Seq<V>,
    rank: spec_fn(V) -> Rank,
    p: Seq<int>,
    at: int,
)
    requires
        placed(from, k, to, rank, p),
        k > 0,
        0 <= at <= to.len(),
        forall|j: int| 0 <= j < at ==> rank_lt(rank(#[trigger] to[j]), rank(from[k - 1])),
        at < to.len() ==> !rank_lt(rank(to[at]), rank(from[k - 1])),
    ensures
        placed(from, k - 1, to.insert(at, from[k - 1]), rank, p.insert(at, k - 1)),
{
    lemma_rank_order();
    let to2 = to.insert(at, from[k - 1]);
    let p2 = p.insert(at, k - 1);
    assert forall|m: int| k - 1 <= m < from.len() implies p2.contains(m) by {
        if m == k - 1 {
            assert(p2[at] == m);
        } else {
            assert(p.contains(m));
            let i = choose|i: int| 0 <= i < p.len() && p[i] == m;
            if i < at {
                assert(p2[i] == m);
            } else {
                assert(p2[i + 1] == m);
            }
        }
    }
    assert forall|i: int|
        #![trigger p2[i]]
        #![trigger to2[i]]
        0 <= i < p2.len() implies k - 1 <= p2[i] < from.len() && to2[i] == from[p2[i]] by {
        if i < at {
            assert(p2[i] == p[i]);
        } else if i > at {
            assert(p2[i] == p[i - 1]);
        }
    }
    assert forall|i: int, j: int|
        #![trigger p2[i], p2[j]]
        0 <= i < j < p2.len() implies rank_lt(rank(to2[i]), rank(to2[j])) || (rank(to2[i]) == rank(
        to2[j],
    ) && p2[i] < p2[j]) by {
        let a = if i < at { i } else { i - 1 };
        let b = if j < at { j } else { j - 1 };
        if i != at && j != at {
            assert(p2[i] == p[a] && p2[j] == p[b]);
            assert(to2[i] == to[a] && to2[j] == to[b]);
        } else if j == at {
            assert(to2[i] == to[i]);
        } else {
            assert(to2[j] == to[b] && p2[j] == p[b]);
            if b > at {
                assert(rank_lt(rank(to[at]), rank(to[b])) || (rank(to[at]) == rank(to[b]) && p[at]
                    < p[b]));
            }
        }
    }
}

// ---------------------------------------------------------------------------------------------
// Texts in order, each once

/// The texts `s`, which are in order, with `x` among them once.
pub open spec fn with_text(s: Seq<Seq<char>>, x: Seq<char>) -> Seq<Seq<char>>
    decreases s.len(),
{
    if s.len() == 0 {
        seq![x]
    } else if s.last() == x {
        s
    } else if text_lt(x, s.last()) {
        with_text(s.drop_last(), x).push(s.last())
    } else {
        s.push(x)
    }
}

/// The texts in `v` in order, each once.
pub open spec fn sorted_set(v: Seq<Seq<char>>) -> Seq<Seq<char>>
    decreases v.len(),
{
    if v.len() == 0 {
        seq![]
    } else {
        with_text(sorted_set(v.drop_last()), v.last())
    }
}

/// Whether each text comes before those that follow it.
pub open spec fn ascending(s: Seq<Seq<char>>) -> bool {
    forall|i: int, j: int| 0 <= i < j < s.len() ==> text_lt(#[trigger] s[i], #[trigger] s[j])
}

proof fn lemma_with_text(s: Seq<Seq<char>>, x: Seq<char>)
    requires
        ascending(s),
    ensures
        ascending(with_text(s, x)),
        forall|y: Seq<char>| #[trigger] with_text(s, x).contains(y) <==> s.contains(y) || y == x,
    decreases s.len(),
{
    let w = with_text(s, x);
    if s.len() == 0 {
        assert(w[0] == x);
    } else if s.last() == x {
        assert(s[s.len() - 1] == x);
    } else if text_lt(x, s.last()) {
        let t = s.drop_last();
        let u = with_text(t, x);
        lemma_with_text(t, x);
        assert forall|y: Seq<char>| #[trigger] w.contains(y) <==> s.contains(y) || y == x by {
            if w.contains(y) {
                let i = choose|i: int| 0 <= i < w.len() && w[i] == y;
                if i < u.len() {
                    assert(u[i] == y);
                    assert(u.contains(y));
                    if t.contains(y) {
                        let k = choose|k: int| 0 <= k < t.len() && t[k] == y;
                        assert(s[k] == y);
                    }
                } else {
                    assert(s[s.len() - 1] == y);
                }
            }
            if s.contains(y) {
                let i = choose|i: int| 0 <= i < s.len() && s[i] == y;
                if i < t.len() {
                    assert(t[i] == y);
                    assert(u.contains(y));
                } else {
                    assert(w[w.len() - 1] == y);
                }
            }
            if y == x {
                assert(u.contains(y));
            }
            if u.contains(y) {
                let k = choose|k: int| 0 <= k < u.len() && u[k] == y;
                assert(w[k] == y);
            }
        }
        assert forall|i: int, j: int| 0 <= i < j < w.len() implies text_lt(
            #[trigger] w[i],
            #[trigger] w[j],
        ) by {
            if j == u.len() {
                assert(u.contains(u[i]));
                if t.contains(u[i]) {
                    let k = choose|k: int| 0 <= k < t.len() && t[k] == u[i];
                    assert(text_lt(s[k], s[s.len() - 1]));
                }
            } else {
                assert(w[i] == u[i] && w[j] == u[j]);
            }
        }
    } else {
        lemma_text_total(x, s.last());
        assert forall|i: int, j: int| 0 <= i < j < w.len() implies text_lt(
            #[trigger] w[i],
            #[trigger] w[j],
        ) by {
            if j == s.len() && i < s.len() - 1 {
                assert(text_lt(s[i], s[s.len() - 1]));
                lemma_text_transitive(s[i], s.last(), x);
            }
        }
        assert forall|y: Seq<char>| #[trigger] w.contains(y) <==> s.contains(y) || y == x by {
            if s.contains(y) {
                let k = choose|k: int| 0 <= k < s.len() && s[k] == y;
                assert(w[k] == y);
            }
            if y == x {
                assert(w[s.len() as int] == y);
            }
        }
    }
}

/// The sorted texts are in order, and they are the texts there were.
pub proof fn law_sorted_set(v: Seq<Seq<char>>)
    ensures
        ascending(sorted_set(v)),
        sorted_set(v).to_set() == v.to_set(),
    decreases v.len(),
{
    if v.len() == 0 {
        assert(sorted_set(v).to_set() =~= v.to_set());
    } else {
        let t = v.drop_last();
        law_sorted_set(t);
        lemma_with_text(sorted_set(t), v.last());
        assert forall|y: Seq<char>| sorted_set(v).contains(y) <==> v.contains(y) by {
            assert(sorted_set(t).to_set().contains(y) == t.to_set().contains(y));
            if v.contains(y) {
                let k = choose|k: int| 0 <= k < v.len() && v[k] == y;
                if k < t.len() {
                    assert(t[k] == y);
                }
            }
            if t.contains(y) {
                let k = choose|k: int| 0 <= k < t.len() && t[k] == y;
                assert(v[k] == y);
            }
            assert(v[v.len() - 1] == v.last());
        }
        assert(sorted_set(v).to_set() =~= v.to_set());
    }
}

proof fn lemma_with_text_at(s: Seq<Seq<char>>, x: Seq<char>, k: int)
    requires
        0 <= k <= s.len(),
        forall|j: int| k <= j < s.len() ==> text_lt(x, #[trigger] s[j]),
        k > 0 ==> !text_lt(x, s[k - 1]),
    ensures
        with_text(s, x) == (if k > 0 && s[k - 1] == x {
            s
        } else {
            s.insert(k, x)
        }),
    decreases s.len(),
{
    if k == s.len() {
        if s.len() == 0 {
            assert(s.insert(0, x) =~= seq![x]);
        } else {
            assert(s.insert(k, x) =~= s.push(x));
        }
    } else {
        let t = s.drop_last();
        lemma_text_irreflexive(x);
        assert(text_lt(x, s[s.len() - 1]));
        lemma_with_text_at(t, x, k);
        assert(s =~= t.push(s.last()));
        assert(t.insert(k, x).push(s.last()) =~= s.insert(k, x));
    }
}

/// The texts in `v` in order, each once.
pub fn sort_distinct(v: Vec<String>) -> (out: Vec<String>)
    ensures
        out.deep_view() == sorted_set(v.deep_view()),
{
    let ghost all = v.deep_view();
    let mut out: Vec<String> = Vec::new();
    for x in it: v
        invariant
            it.seq() == v@,
            all == v.deep_view(),
            out.deep_view() =~= sorted_set(all.take(it.index() as int)),
    {
        let ghost n = it.index() as int;
        let ghost before = out.deep_view();
        let ghost xv = x@;
        proof {
            assert(all[n] == xv);
            assert(all.take(n + 1).drop_last() =~= all.take(n));
        }
        let mut k: usize = out.len();
        while k > 0 && text_before(x.as_str(), out[k - 1].as_str())
            invariant
                k <= out.len(),
                before == out.deep_view(),
                forall|j: int| k <= j < before.len() ==> text_lt(x@, #[trigger] before[j]),
            decreases k,
        {
            assert(before[k - 1] == out@[k - 1]@);
            k -= 1;
        }
        proof {
            if k > 0 {
                assert(before[k - 1] == out@[k - 1]@);
            }
            lemma_with_text_at(before, x@, k as int);
        }
        if !(k > 0 && out[k - 1] == x) {
            out.insert(k, x);
            assert(out.deep_view() =~= before.insert(k as int, xv));
        }
    }
    assert(all.take(all.len() as int) =~= all);
    out
}

/// Texts are ordered by the first character in which they differ; one that ends before any does
/// comes first.
pub proof fn law_text_order(a: Seq<char>, b: Seq<char>, k: int)
    requires
        0 <= k <= a.len(),
        k <= b.len(),
        forall|i: int| 0 <= i < k ==> #[trigger] a[i] == b[i],
    ensures
        k == a.len() && k < b.len() ==> text_lt(a, b),
        k == b.len() ==> !text_lt(a, b),
        k < a.len() && k < b.len() && a[k] < b[k] ==> text_lt(a, b),
        k < a.len() && k < b.len() && b[k] < a[k] ==> !text_lt(a, b),
    decreases k,
{
    if k > 0 {
        assert(a[0] == b[0]);
        let c = a.drop_first();
        let d = b.drop_first();
        assert forall|i: int| 0 <= i < k - 1 implies #[trigger] c[i] == d[i] by {
            assert(a[i + 1] == b[i + 1]);
        }
        law_text_order(c, d, k - 1);
    }
}

/// What is sorted and made distinct is each text once, in the order of the texts, whatever order
/// they came in.
pub proof fn law_sorted_set_is_unique(v: Seq<Seq<char>>, w: Seq<Seq<char>>)
    requires
        v.to_set() == w.to_set(),
    ensures
        sorted_set(v) == sorted_set(w),
        forall|x: Seq<char>| #[trigger] sorted_set(v).contains(x) <==> v.contains(x),
{
    law_sorted_set(v);
    law_sorted_set(w);
    let a = sorted_set(v);
    let b = sorted_set(w);
    assert forall|x: Seq<char>| #[trigger] a.contains(x) <==> v.contains(x) by {
        assert(a.to_set().contains(x) <==> v.to_set().contains(x));
    }
    assert(a.to_set() == b.to_set());
    lemma_ascending_unique(a, b);
}

proof fn lemma_ascending_unique(a: Seq<Seq<char>>, b: Seq<Seq<char>>)
    requires
        ascending(a),
        ascending(b),
        a.to_set() == b.to_set(),
    ensures
        a == b,
    decreases a.len(),
{
    if a.len() == 0 {
        if b.len() > 0 {
            assert(b.to_set().contains(b[0]));
            assert(a.to_set().contains(b[0]));
        }
        assert(a =~= b);
    } else {
        assert(a.to_set().contains(a.last()));
        assert(b.to_set().contains(a.last()));
        assert(b.contains(a.last()));
        assert(b.to_set().contains(b.last()));
        assert(a.to_set().contains(b.last()));
        assert(a.contains(b.last()));
        let i = choose|i: int| 0 <= i < b.len() && b[i] == a.last();
        let j = choose|j: int| 0 <= j < a.len() && a[j] == b.last();
        if i < b.len() - 1 && j < a.len() - 1 {
            assert(text_lt(b[i], b[b.len() - 1]));
            assert(text_lt(a[j], a[a.len() - 1]));
            lemma_text_transitive(a.last(), b.last(), a.last());
            lemma_text_irreflexive(a.last());
        }
        assert(a.last() == b.last());
        let c = a.drop_last();
        let d = b.drop_last();
        assert forall|x: Seq<char>| c.to_set().contains(x) <==> #[trigger] d.to_set().contains(x) by {
            lemma_without_last(a, x);
            lemma_without_last(b, x);
            assert(a.to_set().contains(x) <==> b.to_set().contains(x));
            assert(a.to_set().contains(x) <==> a.contains(x));
            assert(b.to_set().contains(x) <==> b.contains(x));
            assert(c.to_set().contains(x) <==> c.contains(x));
            assert(d.to_set().contains(x) <==> d.contains(x));
        }
        assert(c.to_set() =~= d.to_set());
        lemma_ascending_unique(c, d);
        assert(a =~= c.push(a.last()));
        assert(b =~= d.push(b.last()));
    }
}

proof fn lemma_without_last(a: Seq<Seq<char>>, x: Seq<char>)
    requires
        ascending(a),
        a.len() > 0,
    ensures
        a.drop_last().contains(x) <==> a.contains(x) && x != a.last(),
{
    let c = a.drop_last();
    if c.contains(x) {
        let i = choose|i: int| 0 <= i < c.len() && c[i] == x;
        assert(a[i] == x);
        assert(text_lt(a[i], a[a.len() - 1]));
        lemma_text_irreflexive(x);
    }
    if a.contains(x) && x != a.last() {
        let i = choose|i: int| 0 <= i < a.len() && a[i] == x;
        assert(c[i] == x);
    }
}

} // verus!
