//! Text as sequences of characters: trimming, splitting, prefixes, lines and decimal numbers.
//!
//! The functions that compute work on slices of characters, so that a part of a text is a
//! subrange of it; `chars_of` and `text_of` lead from text to characters and back.
use vstd::prelude::*;
use vstd::slice::slice_subrange;

verus! {

/// `String::push`: appends one character at the end and changes nothing else.
pub assume_specification[ String::push ](s: &mut String, c: char)
    ensures
        final(s)@ == old(s)@.push(c),
;

/// What `String::from_utf8_lossy` makes of bytes: the text that they encode, with U+FFFD in
/// place of what is not UTF-8.
pub uninterp spec fn utf8_lossy(bytes: Seq<u8>) -> Seq<char>;

/// `String::from_utf8_lossy`: the result depends on the bytes alone, and bytes that are valid
/// UTF-8 give the text that they encode. How invalid bytes are grouped into replacement
/// characters is left to the name.
#[verifier::external_body]
pub(crate) fn from_utf8_lossy(bytes: &[u8]) -> (out: String)
    ensures
        out@ == utf8_lossy(bytes@),
        vstd::utf8::valid_utf8(bytes@) ==> out@ == vstd::utf8::decode_utf8(bytes@),
{
    String::from_utf8_lossy(bytes).into_owned()
}

// ---------------------------------------------------------------------------------------------
// Characters

/// White space as Unicode defines it.
pub open spec fn is_white(c: char) -> bool {
    let v = c as u32;
    ||| 0x09 <= v <= 0x0d
    ||| v == 0x20
    ||| v == 0x85
    ||| v == 0xa0
    ||| v == 0x1680
    ||| 0x2000 <= v <= 0x200a
    ||| v == 0x2028
    ||| v == 0x2029
    ||| v == 0x202f
    ||| v == 0x205f
    ||| v == 0x3000
}

/// Whether `c` is white space.
pub fn white(c: char) -> (b: bool)
    ensures
        b == is_white(c),
{
    let v: u32 = c as u32;
    (0x09 <= v && v <= 0x0d) || v == 0x20 || v == 0x85 || v == 0xa0 || v == 0x1680 || (0x2000 <= v
        && v <= 0x200a) || v == 0x2028 || v == 0x2029 || v == 0x202f || v == 0x205f || v == 0x3000
}

/// ASCII letters and digits.
pub open spec fn is_alphanumeric(c: char) -> bool {
    ||| 'A' <= c <= 'Z'
    ||| 'a' <= c <= 'z'
    ||| '0' <= c <= '9'
}

/// Whether `c` is an ASCII letter or digit.
pub fn alphanumeric(c: char) -> (b: bool)
    ensures
        b == is_alphanumeric(c),
{
    ('A' <= c && c <= 'Z') || ('a' <= c && c <= 'z') || ('0' <= c && c <= '9')
}

// ---------------------------------------------------------------------------------------------
// Text and characters

/// The characters of `s`.
pub fn chars_of(s: &str) -> (out: Vec<char>)
    ensures
        out@ == s@,
{
    let mut out: Vec<char> = Vec::new();
    for c in it: s.chars()
        invariant
            out@ == s@.take(it.index() as int),
            it.seq() == s@,
    {
        out.push(c);
        assert(out@ =~= s@.take(it.index() + 1));
    }
    assert(out@ =~= s@);
    out
}

/// The text made of the characters `s`.
pub fn text_of(s: &[char]) -> (out: String)
    ensures
        out@ == s@,
{
    let mut out = String::new();
    let mut i: usize = 0;
    while i < s.len()
        invariant
            i <= s.len(),
            out@ == s@.take(i as int),
        decreases s.len() - i,
    {
        out.push(s[i]);
        i += 1;
        assert(s@.take(i as int) =~= s@.take(i - 1).push(s@[i - 1]));
    }
    assert(s@.take(i as int) =~= s@);
    out
}

/// Whether two runs of characters are equal.
pub fn same_chars(a: &[char], b: &[char]) -> (r: bool)
    ensures
        r == (a@ == b@),
{
    if a.len() != b.len() {
        return false;
    }
    let mut i: usize = 0;
    while i < a.len()
        invariant
            i <= a.len(),
            a.len() == b.len(),
            forall|j: int| 0 <= j < i ==> a@[j] == b@[j],
        decreases a.len() - i,
    {
        if a[i] != b[i] {
            return false;
        }
        i += 1;
    }
    assert(a@ =~= b@);
    true
}

/// Whether the characters `a` are those of the text `b`.
pub fn is_text(a: &[char], b: &str) -> (r: bool)
    ensures
        r == (a@ == b@),
{
    same_chars(a, chars_of(b).as_slice())
}

/// Whether two texts are equal.
pub fn same_text(a: &str, b: &str) -> (r: bool)
    ensures
        r == (a@ == b@),
{
    same_chars(chars_of(a).as_slice(), chars_of(b).as_slice())
}

/// Whether a text holds no character.
pub fn is_empty(s: &str) -> (b: bool)
    ensures
        b == (s@.len() == 0),
{
    chars_of(s).len() == 0
}

/// The texts that the slices `v` stand for.
pub open spec fn views(v: Seq<&[char]>) -> Seq<Seq<char>> {
    v.map_values(|x: &[char]| x@)
}

// ---------------------------------------------------------------------------------------------
// Runs at either end

/// Being white space.
pub open spec fn white_space() -> spec_fn(char) -> bool {
    |x: char| is_white(x)
}

/// Being the character `c`.
pub open spec fn only(c: char) -> spec_fn(char) -> bool {
    |x: char| x == c
}

/// Being another character than `c`.
pub open spec fn other_than(c: char) -> spec_fn(char) -> bool {
    |x: char| x != c
}

/// How many characters at the start of `s` satisfy `p` without a gap.
pub open spec fn head_run(s: Seq<char>, p: spec_fn(char) -> bool) -> int
    decreases s.len(),
{
    if s.len() > 0 && p(s[0]) {
        1 + head_run(s.drop_first(), p)
    } else {
        0
    }
}

/// How many characters at the end of `s` satisfy `p` without a gap.
pub open spec fn tail_run(s: Seq<char>, p: spec_fn(char) -> bool) -> int
    decreases s.len(),
{
    if s.len() > 0 && p(s.last()) {
        1 + tail_run(s.drop_last(), p)
    } else {
        0
    }
}

pub proof fn lemma_head_run(s: Seq<char>, p: spec_fn(char) -> bool, n: int)
    requires
        0 <= n <= s.len(),
        forall|j: int| 0 <= j < n ==> p(#[trigger] s[j]),
        n < s.len() ==> !p(s[n]),
    ensures
        head_run(s, p) == n,
    decreases s.len(),
{
    if n > 0 {
        assert(p(s[0]));
        let t = s.drop_first();
        assert forall|j: int| 0 <= j < n - 1 implies p(#[trigger] t[j]) by {
            assert(p(s[j + 1]));
        }
        lemma_head_run(t, p, n - 1);
    }
}

pub proof fn lemma_head_run_bounds(s: Seq<char>, p: spec_fn(char) -> bool)
    ensures
        0 <= head_run(s, p) <= s.len(),
        forall|j: int| 0 <= j < head_run(s, p) ==> p(#[trigger] s[j]),
        head_run(s, p) < s.len() ==> !p(s[head_run(s, p)]),
    decreases s.len(),
{
    if s.len() > 0 && p(s[0]) {
        let t = s.drop_first();
        lemma_head_run_bounds(t, p);
        assert forall|j: int| 0 <= j < head_run(s, p) implies p(#[trigger] s[j]) by {
            if j > 0 {
                assert(p(t[j - 1]));
            }
        }
    }
}

pub proof fn lemma_tail_run(s: Seq<char>, p: spec_fn(char) -> bool, n: int)
    requires
        0 <= n <= s.len(),
        forall|j: int| s.len() - n <= j < s.len() ==> p(#[trigger] s[j]),
        n < s.len() ==> !p(s[s.len() - n - 1]),
    ensures
        tail_run(s, p) == n,
    decreases s.len(),
{
    if n > 0 {
        assert(p(s[s.len() - 1]));
        let t = s.drop_last();
        assert forall|j: int| t.len() - (n - 1) <= j < t.len() implies p(#[trigger] t[j]) by {
            assert(p(s[j]));
        }
        lemma_tail_run(t, p, n - 1);
    }
}

/// `s` without the white space at its two ends.
pub open spec fn trimmed(s: Seq<char>) -> Seq<char> {
    let t = s.skip(head_run(s, white_space()));
    t.take(t.len() - tail_run(t, white_space()))
}

/// `s` without the run of `c` at its end.
pub open spec fn drop_trailing(s: Seq<char>, c: char) -> Seq<char> {
    s.take(s.len() - tail_run(s, only(c)))
}

/// `s` without the run of `c` at its start.
pub open spec fn drop_leading(s: Seq<char>, c: char) -> Seq<char> {
    s.skip(head_run(s, only(c)))
}

proof fn lemma_tail_run_short(s: Seq<char>, p: spec_fn(char) -> bool)
    requires
        s.len() > 0,
        !p(s[0]),
    ensures
        0 <= tail_run(s, p) < s.len(),
    decreases s.len(),
{
    if p(s.last()) {
        lemma_tail_run_short(s.drop_last(), p);
    }
}

/// Something is left of a text that starts with another character than white space.
pub proof fn lemma_trimmed_nonempty(s: Seq<char>)
    requires
        s.len() > 0,
        !is_white(s[0]),
    ensures
        trimmed(s).len() > 0,
{
    let p = white_space();
    assert(!p(s[0]));
    assert(head_run(s, p) == 0);
    assert(s.skip(0) =~= s);
    lemma_tail_run_short(s, p);
}

/// Removes the white space at the two ends.
pub fn trim<'a>(s: &'a [char]) -> (out: &'a [char])
    ensures
        out@ == trimmed(s@),
{
    let ghost p = white_space();
    let mut i: usize = 0;
    while i < s.len() && white(s[i])
        invariant
            i <= s.len(),
            p == white_space(),
            forall|j: int| 0 <= j < i ==> p(#[trigger] s@[j]),
        decreases s.len() - i,
    {
        i += 1;
    }
    proof {
        lemma_head_run(s@, p, i as int);
    }
    let t = slice_subrange(s, i, s.len());
    let mut k: usize = t.len();
    while k > 0 && white(t[k - 1])
        invariant
            k <= t.len(),
            p == white_space(),
            forall|j: int| k <= j < t.len() ==> p(#[trigger] t@[j]),
        decreases k,
    {
        k -= 1;
    }
    proof {
        assert(t@ =~= s@.skip(i as int));
        lemma_tail_run(t@, p, t.len() - k);
    }
    slice_subrange(t, 0, k)
}

/// Removes the run of `c` at the end.
pub fn trim_end<'a>(s: &'a [char], c: char) -> (out: &'a [char])
    ensures
        out@ == drop_trailing(s@, c),
{
    let ghost p = only(c);
    let mut k: usize = s.len();
    while k > 0 && s[k - 1] == c
        invariant
            k <= s.len(),
            p == only(c),
            forall|j: int| k <= j < s.len() ==> p(#[trigger] s@[j]),
        decreases k,
    {
        k -= 1;
    }
    proof {
        lemma_tail_run(s@, p, s.len() - k);
    }
    slice_subrange(s, 0, k)
}

/// Removes the run of `c` at the start.
pub fn trim_start<'a>(s: &'a [char], c: char) -> (out: &'a [char])
    ensures
        out@ == drop_leading(s@, c),
{
    let ghost p = only(c);
    let mut i: usize = 0;
    while i < s.len() && s[i] == c
        invariant
            i <= s.len(),
            p == only(c),
            forall|j: int| 0 <= j < i ==> p(#[trigger] s@[j]),
        decreases s.len() - i,
    {
        i += 1;
    }
    proof {
        lemma_head_run(s@, p, i as int);
        assert(s@.subrange(i as int, s@.len() as int) =~= s@.skip(i as int));
    }
    slice_subrange(s, i, s.len())
}

// ---------------------------------------------------------------------------------------------
// Prefixes and suffixes

/// What follows the prefix `p` in `s`, if `s` starts with it.
pub open spec fn after_prefix(s: Seq<char>, p: Seq<char>) -> Option<Seq<char>> {
    if p.is_prefix_of(s) {
        Some(s.skip(p.len() as int))
    } else {
        None
    }
}

/// What precedes the suffix `p` in `s`, if `s` ends with it.
pub open spec fn before_suffix(s: Seq<char>, p: Seq<char>) -> Option<Seq<char>> {
    if p.is_suffix_of(s) {
        Some(s.take(s.len() - p.len()))
    } else {
        None
    }
}

/// Whether `s` starts with `p`.
pub fn starts_with(s: &[char], p: &[char]) -> (r: bool)
    ensures
        r == p@.is_prefix_of(s@),
{
    if p.len() > s.len() {
        return false;
    }
    let r = same_chars(slice_subrange(s, 0, p.len()), p);
    r
}

/// The rest of `s` behind the prefix `p`.
pub fn strip_prefix<'a>(s: &'a [char], p: &str) -> (out: Option<&'a [char]>)
    ensures
        match out {
            Some(rest) => after_prefix(s@, p@) == Some(rest@),
            None => after_prefix(s@, p@) is None,
        },
{
    let pc = chars_of(p);
    if starts_with(s, pc.as_slice()) {
        assert(s@.subrange(pc.len() as int, s@.len() as int) =~= s@.skip(pc.len() as int));
        Some(slice_subrange(s, pc.len(), s.len()))
    } else {
        None
    }
}

/// The part of `s` before the suffix `p`.
pub fn strip_suffix<'a>(s: &'a [char], p: &str) -> (out: Option<&'a [char]>)
    ensures
        match out {
            Some(rest) => before_suffix(s@, p@) == Some(rest@),
            None => before_suffix(s@, p@) is None,
        },
{
    let pc = chars_of(p);
    if pc.len() > s.len() {
        return None;
    }
    let k: usize = s.len() - pc.len();
    assert(s@.subrange(k as int, s@.len() as int) =~= s@.skip(k as int));
    if same_chars(slice_subrange(s, k, s.len()), pc.as_slice()) {
        Some(slice_subrange(s, 0, k))
    } else {
        None
    }
}

/// Whether `p` occurs in `s` as an unbroken run.
pub open spec fn occurs(s: Seq<char>, p: Seq<char>) -> bool {
    exists|i: int| 0 <= i <= s.len() && #[trigger] p.is_prefix_of(s.skip(i))
}

/// Whether `p` occurs in `s`.
pub fn contains(s: &[char], p: &[char]) -> (r: bool)
    ensures
        r == occurs(s@, p@),
{
    let mut i: usize = 0;
    loop
        invariant
            i <= s.len(),
            forall|j: int| 0 <= j < i ==> !(#[trigger] p@.is_prefix_of(s@.skip(j))),
        decreases s.len() - i,
    {
        assert(s@.subrange(i as int, s@.len() as int) =~= s@.skip(i as int));
        if starts_with(slice_subrange(s, i, s.len()), p) {
            return true;
        }
        if i == s.len() {
            return false;
        }
        i += 1;
    }
}

// ---------------------------------------------------------------------------------------------
// Splitting

/// Where `c` first stands in `s`, or the length of `s` where it does not.
pub open spec fn first_at(s: Seq<char>, c: char) -> int {
    head_run(s, other_than(c))
}

pub proof fn lemma_first_at(s: Seq<char>, c: char)
    ensures
        0 <= first_at(s, c) <= s.len(),
        forall|j: int| 0 <= j < first_at(s, c) ==> #[trigger] s[j] != c,
        first_at(s, c) < s.len() ==> s[first_at(s, c)] == c,
{
    let p = other_than(c);
    lemma_head_run_bounds(s, p);
    assert forall|j: int| 0 <= j < first_at(s, c) implies #[trigger] s[j] != c by {
        assert(p(s[j]));
    }
}

/// `s` cut at the first `c`.
pub open spec fn cut(s: Seq<char>, c: char) -> Option<(Seq<char>, Seq<char>)> {
    let i = first_at(s, c);
    if i < s.len() {
        Some((s.take(i), s.skip(i + 1)))
    } else {
        None
    }
}

/// Being no white space.
pub open spec fn no_white_space() -> spec_fn(char) -> bool {
    |x: char| !is_white(x)
}

/// `s` cut at the first white space.
pub open spec fn cut_white(s: Seq<char>) -> Option<(Seq<char>, Seq<char>)> {
    let i = head_run(s, no_white_space());
    if i < s.len() {
        Some((s.take(i), s.skip(i + 1)))
    } else {
        None
    }
}

/// The parts of `s` between the `c`s; one more part than there are `c`s.
pub open spec fn pieces(s: Seq<char>, c: char) -> Seq<Seq<char>>
    decreases s.len(),
{
    let i = first_at(s, c);
    if 0 <= i < s.len() {
        seq![s.take(i)] + pieces(s.skip(i + 1), c)
    } else {
        seq![s]
    }
}

/// Two texts with `c` between them are cut there, if the first holds no `c`.
pub proof fn lemma_cut_joined(a: Seq<char>, b: Seq<char>, c: char)
    requires
        !a.contains(c),
    ensures
        cut(a + seq![c] + b, c) == Some((a, b)),
{
    let s = a + seq![c] + b;
    let p = other_than(c);
    assert forall|j: int| 0 <= j < a.len() implies p(#[trigger] s[j]) by {
        assert(s[j] == a[j]);
        assert(a.contains(a[j]));
    }
    assert(s[a.len() as int] == c);
    lemma_head_run(s, p, a.len() as int);
    assert(s.take(a.len() as int) =~= a);
    assert(s.skip(a.len() as int + 1) =~= b);
}

/// Two texts with `c` between them are split there, if the first holds no `c`.
pub proof fn lemma_pieces_joined(a: Seq<char>, b: Seq<char>, c: char)
    requires
        !a.contains(c),
    ensures
        pieces(a + seq![c] + b, c) == seq![a] + pieces(b, c),
{
    lemma_cut_joined(a, b, c);
    lemma_first_at(a + seq![c] + b, c);
}

/// A text that holds no `c` is not split.
pub proof fn lemma_one_piece(a: Seq<char>, c: char)
    requires
        !a.contains(c),
    ensures
        cut(a, c) is None,
        pieces(a, c) == seq![a],
{
    let p = other_than(c);
    assert forall|j: int| 0 <= j < a.len() implies p(#[trigger] a[j]) by {
        assert(a.contains(a[j]));
    }
    lemma_head_run(a, p, a.len() as int);
}

/// The parts between the `c`s hold none.
pub proof fn lemma_pieces_are_free(s: Seq<char>, c: char, i: int)
    requires
        0 <= i < pieces(s, c).len(),
    ensures
        !pieces(s, c)[i].contains(c),
    decreases s.len(),
{
    lemma_first_at(s, c);
    let k = first_at(s, c);
    if k < s.len() {
        if i == 0 {
            let a = s.take(k);
            if a.contains(c) {
                let j = choose|j: int| 0 <= j < a.len() && a[j] == c;
                assert(s[j] == c);
            }
        } else {
            lemma_pieces_are_free(s.skip(k + 1), c, i - 1);
        }
    } else if s.contains(c) {
        let j = choose|j: int| 0 <= j < s.len() && s[j] == c;
        assert(s[j] == c);
    }
}

/// What follows the last `c` is the last part.
pub proof fn lemma_pieces_push(a: Seq<char>, b: Seq<char>, c: char)
    requires
        !b.contains(c),
    ensures
        pieces(a + seq![c] + b, c) == pieces(a, c).push(b),
    decreases a.len(),
{
    lemma_first_at(a, c);
    let k = first_at(a, c);
    if k < a.len() {
        let x = a.take(k);
        let y = a.skip(k + 1);
        if x.contains(c) {
            let j = choose|j: int| 0 <= j < x.len() && x[j] == c;
            assert(a[j] == c);
        }
        assert(a + seq![c] + b =~= x + seq![c] + (y + seq![c] + b));
        lemma_pieces_joined(x, y + seq![c] + b, c);
        lemma_pieces_push(y, b, c);
        assert(seq![x] + pieces(y, c).push(b) =~= (seq![x] + pieces(y, c)).push(b));
    } else {
        if a.contains(c) {
            let j = choose|j: int| 0 <= j < a.len() && a[j] == c;
            assert(a[j] == c);
        }
        lemma_pieces_joined(a, b, c);
        lemma_one_piece(b, c);
        assert(seq![a] + seq![b] =~= seq![a].push(b));
    }
}

/// Splitting leaves at least one part.
pub proof fn lemma_pieces_nonempty(s: Seq<char>, c: char)
    ensures
        pieces(s, c).len() >= 1,
{
}

/// Where `c` first stands, or the length.
pub fn find(s: &[char], c: char) -> (i: usize)
    ensures
        i == first_at(s@, c),
        i <= s.len(),
        i < s.len() ==> s@[i as int] == c,
{
    let ghost p = other_than(c);
    let mut i: usize = 0;
    while i < s.len() && s[i] != c
        invariant
            i <= s.len(),
            p == other_than(c),
            forall|j: int| 0 <= j < i ==> p(#[trigger] s@[j]),
        decreases s.len() - i,
    {
        i += 1;
    }
    proof {
        lemma_head_run(s@, p, i as int);
    }
    i
}

/// Cuts at the first `c`.
pub fn split_once<'a>(s: &'a [char], c: char) -> (out: Option<(&'a [char], &'a [char])>)
    ensures
        match out {
            Some((a, b)) => cut(s@, c) == Some((a@, b@)),
            None => cut(s@, c) is None,
        },
{
    let i = find(s, c);
    if i < s.len() {
        assert(s@.subrange(i + 1, s@.len() as int) =~= s@.skip(i + 1));
        Some((slice_subrange(s, 0, i), slice_subrange(s, i + 1, s.len())))
    } else {
        None
    }
}

/// Cuts at the first white space.
pub fn split_white<'a>(s: &'a [char]) -> (out: Option<(&'a [char], &'a [char])>)
    ensures
        match out {
            Some((a, b)) => cut_white(s@) == Some((a@, b@)),
            None => cut_white(s@) is None,
        },
{
    let ghost p = no_white_space();
    let mut i: usize = 0;
    while i < s.len() && !white(s[i])
        invariant
            i <= s.len(),
            p == no_white_space(),
            forall|j: int| 0 <= j < i ==> p(#[trigger] s@[j]),
        decreases s.len() - i,
    {
        i += 1;
    }
    proof {
        lemma_head_run(s@, p, i as int);
    }
    if i < s.len() {
        assert(s@.subrange(i + 1, s@.len() as int) =~= s@.skip(i + 1));
        Some((slice_subrange(s, 0, i), slice_subrange(s, i + 1, s.len())))
    } else {
        None
    }
}

/// Splits at every `c`.
pub fn split<'a>(s: &'a [char], c: char) -> (out: Vec<&'a [char]>)
    ensures
        views(out@) == pieces(s@, c),
{
    let mut out: Vec<&'a [char]> = Vec::new();
    let mut rest: &'a [char] = s;
    loop
        invariant
            views(out@) + pieces(rest@, c) =~= pieces(s@, c),
        decreases rest.len(),
    {
        let ghost before = out@;
        match split_once(rest, c) {
            Some((a, b)) => {
                proof {
                    lemma_first_at(rest@, c);
                    assert(views(before.push(a)) =~= views(before).push(a@));
                    assert(views(before).push(a@) + pieces(b@, c) =~= views(before) + pieces(
                        rest@,
                        c,
                    ));
                }
                out.push(a);
                rest = b;
            },
            None => {
                proof {
                    lemma_first_at(rest@, c);
                    assert(views(before.push(rest)) =~= views(before).push(rest@));
                }
                out.push(rest);
                return out;
            },
        }
    }
}

/// `s` cut at each of the first `c`s, into `n` parts at most; the last part is the rest.
pub open spec fn first_pieces(s: Seq<char>, c: char, n: nat) -> Seq<Seq<char>>
    decreases n,
{
    if n <= 1 {
        seq![s]
    } else {
        match cut(s, c) {
            Some((a, b)) => seq![a] + first_pieces(b, c, (n - 1) as nat),
            None => seq![s],
        }
    }
}

/// Splits into `n` parts at most.
pub fn split_up_to<'a>(s: &'a [char], c: char, n: usize) -> (out: Vec<&'a [char]>)
    ensures
        views(out@) == first_pieces(s@, c, n as nat),
{
    let mut out: Vec<&'a [char]> = Vec::new();
    let mut rest: &'a [char] = s;
    let mut left: usize = n;
    while left > 1
        invariant
            left <= n || n == 0,
            views(out@) + first_pieces(rest@, c, left as nat) =~= first_pieces(s@, c, n as nat),
        decreases left,
    {
        let ghost before = out@;
        match split_once(rest, c) {
            Some((a, b)) => {
                proof {
                    assert(views(before.push(a)) =~= views(before).push(a@));
                    assert(views(before).push(a@) + first_pieces(b@, c, (left - 1) as nat) =~= views(
                        before,
                    ) + first_pieces(rest@, c, left as nat));
                }
                out.push(a);
                rest = b;
                left -= 1;
            },
            None => {
                proof {
                    assert(views(before.push(rest)) =~= views(before).push(rest@));
                }
                out.push(rest);
                return out;
            },
        }
    }
    assert(views(out@.push(rest)) =~= views(out@).push(rest@));
    out.push(rest);
    out
}

/// A line without the carriage return before its end.
pub open spec fn chomp(s: Seq<char>) -> Seq<char> {
    if s.len() > 0 && s.last() == '\r' {
        s.drop_last()
    } else {
        s
    }
}

/// The lines of `s`: each ends in a line feed, which may follow a carriage return; the last one
/// may have no end, and keeps a carriage return of its own.
pub open spec fn line_list(s: Seq<char>) -> Seq<Seq<char>>
    decreases s.len(),
{
    let i = first_at(s, '\n');
    if s.len() == 0 {
        seq![]
    } else if 0 <= i < s.len() {
        seq![chomp(s.take(i))] + line_list(s.skip(i + 1))
    } else {
        seq![s]
    }
}

/// The lines of `s`.
pub fn lines<'a>(s: &'a [char]) -> (out: Vec<&'a [char]>)
    ensures
        views(out@) == line_list(s@),
{
    let mut out: Vec<&'a [char]> = Vec::new();
    let mut rest: &'a [char] = s;
    while rest.len() > 0
        invariant
            views(out@) + line_list(rest@) =~= line_list(s@),
        decreases rest.len(),
    {
        let ghost before = out@;
        match split_once(rest, '\n') {
            Some((a, b)) => {
                let line: &'a [char] = if a.len() > 0 && a[a.len() - 1] == '\r' {
                    slice_subrange(a, 0, a.len() - 1)
                } else {
                    a
                };
                proof {
                    lemma_first_at(rest@, '\n');
                    assert(line@ =~= chomp(a@));
                    assert(views(before.push(line)) =~= views(before).push(line@));
                    assert(views(before).push(line@) + line_list(b@) =~= views(before) + line_list(
                        rest@,
                    ));
                }
                out.push(line);
                rest = b;
            },
            None => {
                proof {
                    lemma_first_at(rest@, '\n');
                    assert(views(before.push(rest)) =~= views(before).push(rest@));
                }
                out.push(rest);
                return out;
            },
        }
    }
    assert(views(out@) =~= line_list(s@));
    out
}

// ---------------------------------------------------------------------------------------------
// Joining

/// The texts of `parts` with `sep` between any two of them.
pub open spec fn joined(parts: Seq<Seq<char>>, sep: Seq<char>) -> Seq<char>
    decreases parts.len(),
{
    if parts.len() == 0 {
        seq![]
    } else if parts.len() == 1 {
        parts[0]
    } else {
        joined(parts.drop_last(), sep) + sep + parts.last()
    }
}

/// The texts of `parts` with `sep` between any two of them.
pub fn join(parts: &Vec<String>, sep: &str) -> (out: String)
    ensures
        out@ == joined(parts.deep_view(), sep@),
{
    let ghost all = parts.deep_view();
    let mut out = String::new();
    let mut i: usize = 0;
    while i < parts.len()
        invariant
            i <= parts.len(),
            all == parts.deep_view(),
            out@ == joined(all.take(i as int), sep@),
        decreases parts.len() - i,
    {
        if i > 0 {
            out.append(sep);
        }
        out.append(parts[i].as_str());
        i += 1;
        proof {
            let t = all.take(i as int);
            assert(t.drop_last() =~= all.take(i - 1));
            assert(t.last() == parts@[i - 1]@);
            if i == 1 {
                assert(all.take(0) =~= seq![]);
                assert(out@ =~= t[0]);
            }
        }
    }
    assert(all.take(i as int) =~= all);
    out
}

/// Texts that hold no `c`, joined by it, are what splitting at `c` gives back.
pub proof fn law_joined_is_split(parts: Seq<Seq<char>>, c: char)
    requires
        parts.len() > 0,
        forall|i: int| 0 <= i < parts.len() ==> !(#[trigger] parts[i]).contains(c),
    ensures
        pieces(joined(parts, seq![c]), c) == parts,
    decreases parts.len(),
{
    if parts.len() == 1 {
        assert(!parts[0].contains(c));
        lemma_one_piece(parts[0], c);
        assert(seq![parts[0]] =~= parts);
    } else {
        let t = parts.drop_last();
        assert forall|i: int| 0 <= i < t.len() implies !(#[trigger] t[i]).contains(c) by {
            assert(!parts[i].contains(c));
        }
        law_joined_is_split(t, c);
        assert(!parts[parts.len() - 1].contains(c));
        lemma_pieces_push(joined(t, seq![c]), parts.last(), c);
        assert(t.push(parts.last()) =~= parts);
    }
}

/// Lines, each with a line feed at its end.
pub open spec fn terminated(lines: Seq<Seq<char>>) -> Seq<char>
    decreases lines.len(),
{
    if lines.len() == 0 {
        seq![]
    } else {
        lines[0] + seq!['\n'] + terminated(lines.drop_first())
    }
}

/// Lines that are written are read back; none of them may hold a line feed or end in a carriage
/// return.
pub proof fn law_lines_are_read_back(lines: Seq<Seq<char>>)
    requires
        forall|i: int|
            0 <= i < lines.len() ==> !(#[trigger] lines[i]).contains('\n') && !(lines[i].len() > 0
                && lines[i].last() == '\r'),
    ensures
        line_list(terminated(lines)) == lines,
    decreases lines.len(),
{
    if lines.len() > 0 {
        let rest = lines.drop_first();
        assert forall|i: int| 0 <= i < rest.len() implies !(#[trigger] rest[i]).contains('\n') && !(
        rest[i].len() > 0 && rest[i].last() == '\r') by {
            assert(rest[i] == lines[i + 1]);
        }
        law_lines_are_read_back(rest);
        let s = terminated(lines);
        assert(!lines[0].contains('\n'));
        lemma_cut_joined(lines[0], terminated(rest), '\n');
        lemma_first_at(s, '\n');
        assert(chomp(lines[0]) == lines[0]);
        assert(seq![lines[0]] + rest =~= lines);
    }
}

// ---------------------------------------------------------------------------------------------
// Numbers

/// The decimal digit that stands for `d`.
pub open spec fn digit(d: nat) -> char {
    (48 + d) as char
}

/// `n` in decimal, without leading zeros.
pub open spec fn decimal(n: nat) -> Seq<char>
    decreases n,
{
    if n < 10 {
        seq![digit(n)]
    } else {
        decimal(n / 10).push(digit(n % 10))
    }
}

/// The digits of `n` in decimal.
fn decimal_digits(n: u64) -> (out: Vec<char>)
    ensures
        out@ == decimal(n as nat),
    decreases n,
{
    if n < 10 {
        let mut out: Vec<char> = Vec::new();
        out.push((48 + n as u8) as char);
        assert(out@ =~= decimal(n as nat));
        out
    } else {
        let mut out = decimal_digits(n / 10);
        out.push((48 + (n % 10) as u8) as char);
        out
    }
}

/// `n` in decimal.
pub fn number_text(n: u64) -> (out: String)
    ensures
        out@ == decimal(n as nat),
{
    text_of(decimal_digits(n).as_slice())
}

/// Whether every character of `s` is a decimal digit.
pub open spec fn all_digits(s: Seq<char>) -> bool {
    forall|i: int| 0 <= i < s.len() ==> '0' <= #[trigger] s[i] <= '9'
}

/// The number that the decimal digits `s` stand for.
pub open spec fn digits_value(s: Seq<char>) -> nat
    decreases s.len(),
{
    if s.len() == 0 {
        0
    } else {
        digits_value(s.drop_last()) * 10 + (s.last() as u32 - 48) as nat
    }
}

/// `s` read as a 64-bit number: an optional plus sign and then digits only, not too large.
pub open spec fn parsed_number(s: Seq<char>) -> Option<u64> {
    let d = if s.len() > 0 && s[0] == '+' {
        s.skip(1)
    } else {
        s
    };
    if d.len() > 0 && all_digits(d) && digits_value(d) <= u64::MAX {
        Some(digits_value(d) as u64)
    } else {
        None
    }
}

/// A number in decimal is digits only, at least one, and they stand for the number.
pub proof fn lemma_decimal(n: nat)
    ensures
        decimal(n).len() > 0,
        all_digits(decimal(n)),
        digits_value(decimal(n)) == n,
    decreases n,
{
    let d = decimal(n);
    assert(digits_value(Seq::<char>::empty()) == 0);
    if n < 10 {
        assert(d.drop_last() =~= seq![]);
        assert(d.last() == digit(n));
    } else {
        lemma_decimal(n / 10);
        let h = decimal(n / 10);
        assert(d.drop_last() =~= h);
        assert forall|i: int| 0 <= i < d.len() implies '0' <= #[trigger] d[i] <= '9' by {
            if i < h.len() {
                assert(d[i] == h[i]);
            }
        }
    }
}

/// A number that is written in decimal is read back.
pub proof fn law_number_is_read_back(n: u64)
    ensures
        parsed_number(decimal(n as nat)) == Some(n),
        !decimal(n as nat).contains('/'),
        decimal(n as nat).len() > 0,
{
    lemma_decimal(n as nat);
    let d = decimal(n as nat);
    assert('0' <= d[0] <= '9');
    if d.contains('/') {
        let i = choose|i: int| 0 <= i < d.len() && d[i] == '/';
        assert('0' <= d[i] <= '9');
    }
}

/// Reads a 64-bit number.
pub fn parse_number(s: &[char]) -> (out: Option<u64>)
    ensures
        out == parsed_number(s@),
{
    let d: &[char] = if s.len() > 0 && s[0] == '+' {
        assert(s@.subrange(1, s@.len() as int) =~= s@.skip(1));
        slice_subrange(s, 1, s.len())
    } else {
        s
    };
    if d.len() == 0 {
        return None;
    }
    let mut n: u64 = 0;
    let mut i: usize = 0;
    let mut fits: bool = true;
    while i < d.len()
        invariant
            i <= d.len(),
            forall|j: int| 0 <= j < i ==> '0' <= #[trigger] d@[j] <= '9',
            fits ==> n == digits_value(d@.take(i as int)),
            !fits ==> digits_value(d@.take(i as int)) > u64::MAX,
            parsed_number(s@) == (if all_digits(d@) && digits_value(d@) <= u64::MAX {
                Some(digits_value(d@) as u64)
            } else {
                None
            }),
        decreases d.len() - i,
    {
        let c: char = d[i];
        if !('0' <= c && c <= '9') {
            assert(!all_digits(d@));
            return None;
        }
        let v: u64 = (c as u32 - 48) as u64;
        proof {
            assert(d@.take(i + 1).drop_last() =~= d@.take(i as int));
        }
        if fits {
            if n > (u64::MAX - v) / 10 {
                fits = false;
            } else {
                n = n * 10 + v;
            }
        }
        i += 1;
    }
    assert(d@.take(i as int) =~= d@);
    if fits {
        Some(n)
    } else {
        None
    }
}

// ---------------------------------------------------------------------------------------------
// What the parts of a text have to do with it

proof fn lemma_tail_run_bounds(s: Seq<char>, p: spec_fn(char) -> bool)
    ensures
        0 <= tail_run(s, p) <= s.len(),
        forall|j: int| s.len() - tail_run(s, p) <= j < s.len() ==> p(#[trigger] s[j]),
        tail_run(s, p) < s.len() ==> !p(s[s.len() - tail_run(s, p) - 1]),
    decreases s.len(),
{
    if s.len() > 0 && p(s.last()) {
        let t = s.drop_last();
        lemma_tail_run_bounds(t, p);
        assert forall|j: int| s.len() - tail_run(s, p) <= j < s.len() implies p(#[trigger] s[j]) by {
            if j < t.len() {
                assert(p(t[j]));
            }
        }
    }
}

/// What is trimmed off a text is white space only; what is left does not start or end with any.
pub proof fn law_trimmed(s: Seq<char>) -> (out: (Seq<char>, Seq<char>))
    ensures
        s == out.0 + trimmed(s) + out.1,
        forall|i: int| 0 <= i < out.0.len() ==> is_white(#[trigger] out.0[i]),
        forall|i: int| 0 <= i < out.1.len() ==> is_white(#[trigger] out.1[i]),
        trimmed(s).len() > 0 ==> !is_white(trimmed(s)[0]) && !is_white(trimmed(s).last()),
{
    let p = white_space();
    lemma_head_run_bounds(s, p);
    let h = head_run(s, p);
    let t = s.skip(h);
    lemma_tail_run_bounds(t, p);
    let k = tail_run(t, p);
    let front = s.take(h);
    let back = t.skip(t.len() - k);
    assert(s =~= front + trimmed(s) + back);
    assert forall|i: int| 0 <= i < front.len() implies is_white(#[trigger] front[i]) by {
        assert(p(s[i]));
    }
    assert forall|i: int| 0 <= i < back.len() implies is_white(#[trigger] back[i]) by {
        assert(p(t[t.len() - k + i]));
    }
    if trimmed(s).len() > 0 {
        assert(trimmed(s)[0] == s[h]);
        assert(!p(s[h]));
        assert(trimmed(s).last() == t[t.len() - k - 1]);
        assert(!p(t[t.len() - k - 1]));
    }
    (front, back)
}

/// The run of `c` at the end is taken off, all of it and nothing else.
pub proof fn law_drop_trailing(s: Seq<char>, c: char)
    ensures
        drop_trailing(s, c).len() <= s.len(),
        s.take(drop_trailing(s, c).len() as int) == drop_trailing(s, c),
        forall|i: int| drop_trailing(s, c).len() <= i < s.len() ==> #[trigger] s[i] == c,
        drop_trailing(s, c).len() > 0 ==> drop_trailing(s, c).last() != c,
{
    let p = only(c);
    lemma_tail_run_bounds(s, p);
    let d = drop_trailing(s, c);
    assert(s.take(d.len() as int) =~= d);
    assert forall|i: int| d.len() <= i < s.len() implies #[trigger] s[i] == c by {
        assert(p(s[i]));
    }
    if d.len() > 0 {
        assert(d.last() == s[s.len() - tail_run(s, p) - 1]);
        assert(!p(d.last()));
    }
}

/// The run of `c` at the start is taken off, all of it and nothing else.
pub proof fn law_drop_leading(s: Seq<char>, c: char)
    ensures
        drop_leading(s, c).len() <= s.len(),
        s.skip(s.len() - drop_leading(s, c).len()) == drop_leading(s, c),
        forall|i: int| 0 <= i < s.len() - drop_leading(s, c).len() ==> #[trigger] s[i] == c,
        drop_leading(s, c).len() > 0 ==> drop_leading(s, c)[0] != c,
{
    let p = only(c);
    lemma_head_run_bounds(s, p);
    let d = drop_leading(s, c);
    let h = head_run(s, p);
    assert(s.skip(s.len() - d.len()) =~= d);
    assert forall|i: int| 0 <= i < s.len() - d.len() implies #[trigger] s[i] == c by {
        assert(p(s[i]));
    }
    if d.len() > 0 {
        assert(d[0] == s[h]);
        assert(!p(s[h]));
    }
}

/// A prefix and the rest behind it are the whole, and so are the part before a suffix and the
/// suffix; where there is no rest, the text does not start, or end, so.
pub proof fn law_prefix_and_suffix(s: Seq<char>, p: Seq<char>, r: Seq<char>)
    ensures
        after_prefix(s, p) == Some(r) <==> s == p + r,
        before_suffix(s, p) == Some(r) <==> s == r + p,
{
    if after_prefix(s, p) == Some(r) {
        assert(s =~= p + r);
    }
    if s == p + r {
        assert(s.subrange(0, p.len() as int) =~= p);
        assert(s.skip(p.len() as int) =~= r);
    }
    if before_suffix(s, p) == Some(r) {
        assert(s =~= r + p);
    }
    if s == r + p {
        assert(s.subrange(r.len() as int, s.len() as int) =~= p);
        assert(s.take(r.len() as int) =~= r);
    }
}

/// A text occurs in another where something stands before it and something behind.
pub proof fn law_occurs(s: Seq<char>, p: Seq<char>)
    ensures
        occurs(s, p) <==> exists|a: Seq<char>, b: Seq<char>| s == #[trigger] (a + p + b),
{
    if occurs(s, p) {
        let i = choose|i: int| 0 <= i <= s.len() && #[trigger] p.is_prefix_of(s.skip(i));
        let a = s.take(i);
        let b = s.skip(i + p.len());
        assert(s =~= a + p + b) by {
            assert forall|k: int| 0 <= k < p.len() implies s[i + k] == p[k] by {
                assert(s.skip(i)[k] == p[k]);
            }
        }
    }
    if exists|a: Seq<char>, b: Seq<char>| s == #[trigger] (a + p + b) {
        let (a, b) = choose|a: Seq<char>, b: Seq<char>| s == #[trigger] (a + p + b);
        assert(s.skip(a.len() as int) =~= p + b);
        assert(s.skip(a.len() as int).subrange(0, p.len() as int) =~= p);
        assert(p.is_prefix_of(s.skip(a.len() as int)));
    }
}

/// A cut is at the first `c`: the two parts with `c` between them are the whole, and the first
/// holds none. There is a cut wherever there is a `c`.
pub proof fn law_cut(s: Seq<char>, c: char)
    ensures
        cut(s, c) is Some <==> s.contains(c),
        match cut(s, c) {
            Some((a, b)) => s == a + seq![c] + b && !a.contains(c),
            None => true,
        },
{
    lemma_first_at(s, c);
    let i = first_at(s, c);
    if i < s.len() {
        let a = s.take(i);
        assert(s[i] == c);
        assert(s =~= a + seq![c] + s.skip(i + 1));
        if a.contains(c) {
            let k = choose|k: int| 0 <= k < a.len() && a[k] == c;
            assert(s[k] == c);
        }
    } else if s.contains(c) {
        let k = choose|k: int| 0 <= k < s.len() && s[k] == c;
        assert(s[k] == c);
    }
}

/// A cut at white space is at the first there is.
pub proof fn law_cut_white(s: Seq<char>)
    ensures
        match cut_white(s) {
            Some((a, b)) => {
                &&& a.len() + 1 + b.len() == s.len()
                &&& s.take(a.len() as int) == a
                &&& is_white(s[a.len() as int])
                &&& s.skip(a.len() as int + 1) == b
                &&& forall|i: int| 0 <= i < a.len() ==> !is_white(#[trigger] a[i])
            },
            None => forall|i: int| 0 <= i < s.len() ==> !is_white(#[trigger] s[i]),
        },
{
    let p = no_white_space();
    lemma_head_run_bounds(s, p);
    let i = head_run(s, p);
    if i < s.len() {
        let a = s.take(i);
        assert(!p(s[i]));
        assert forall|k: int| 0 <= k < a.len() implies !is_white(#[trigger] a[k]) by {
            assert(p(s[k]));
        }
    } else {
        assert forall|k: int| 0 <= k < s.len() implies !is_white(#[trigger] s[k]) by {
            assert(p(s[k]));
        }
    }
}

/// The parts of a text, joined again by what it was split at, are the text.
pub proof fn law_split_is_joined(s: Seq<char>, c: char)
    ensures
        pieces(s, c).len() >= 1,
        joined(pieces(s, c), seq![c]) == s,
    decreases s.len(),
{
    law_cut(s, c);
    lemma_first_at(s, c);
    let i = first_at(s, c);
    if i < s.len() {
        let rest = s.skip(i + 1);
        law_split_is_joined(rest, c);
        lemma_joined_front(s.take(i), pieces(rest, c), seq![c]);
    }
}

proof fn lemma_joined_front(a: Seq<char>, parts: Seq<Seq<char>>, sep: Seq<char>)
    requires
        parts.len() > 0,
    ensures
        joined(seq![a] + parts, sep) == a + sep + joined(parts, sep),
    decreases parts.len(),
{
    let all = seq![a] + parts;
    assert(all.last() == parts.last());
    if parts.len() == 1 {
        assert(all.drop_last() =~= seq![a]);
        assert(joined(seq![a], sep) == a);
        assert(joined(parts, sep) == parts.last());
        assert(joined(all, sep) == joined(all.drop_last(), sep) + sep + all.last());
    } else {
        assert(joined(all, sep) == joined(all.drop_last(), sep) + sep + all.last());
        lemma_joined_front(a, parts.drop_last(), sep);
        assert(all.drop_last() =~= seq![a] + parts.drop_last());
        assert(a + sep + joined(parts.drop_last(), sep) + sep + parts.last() =~= a + sep + (joined(
            parts.drop_last(),
            sep,
        ) + sep + parts.last()));
    }
}

/// Joined texts begin with the first of them, and the separator stands between it and the rest.
pub proof fn law_joined(parts: Seq<Seq<char>>, sep: Seq<char>)
    ensures
        parts.len() == 0 ==> joined(parts, sep).len() == 0,
        parts.len() == 1 ==> joined(parts, sep) == parts[0],
        parts.len() > 1 ==> joined(parts, sep) == parts[0] + sep + joined(parts.drop_first(), sep),
{
    if parts.len() > 1 {
        lemma_joined_front(parts[0], parts.drop_first(), sep);
        assert(seq![parts[0]] + parts.drop_first() =~= parts);
    }
}

/// No line holds a line feed, and the last line of a text without one at its end is the rest.
pub proof fn law_lines(a: Seq<char>, rest: Seq<char>)
    requires
        !a.contains('\n'),
    ensures
        line_list(a + seq!['\n'] + rest).len() == 1 + line_list(rest).len(),
        line_list(a + seq!['\n'] + rest).drop_first() == line_list(rest),
        line_list(a + seq!['\n'] + rest)[0] == (if a.len() > 0 && a.last() == '\r' {
            a.drop_last()
        } else {
            a
        }),
        a.len() > 0 ==> line_list(a) == seq![a],
        a.len() == 0 ==> line_list(a).len() == 0,
{
    let s = a + seq!['\n'] + rest;
    lemma_cut_joined(a, rest, '\n');
    lemma_first_at(s, '\n');
    lemma_one_piece(a, '\n');
    lemma_first_at(a, '\n');
    assert(line_list(s).drop_first() =~= line_list(rest));
}

/// A number is read exactly where a text is digits, at least one, perhaps behind a plus sign, and
/// the number fits; each further digit is worth a tenth of what stands before it.
pub proof fn law_number(s: Seq<char>, d: char)
    ensures
        parsed_number(s) is Some ==> s.len() > 0 && (s[0] == '+' ==> s.len() > 1) && forall|i: int|
            0 <= i < s.len() && !(i == 0 && s[0] == '+') ==> '0' <= #[trigger] s[i] <= '9',
        s.len() == 1 && '0' <= s[0] <= '9' ==> parsed_number(s) == Some((s[0] as u32 - 48) as u64),
        parsed_number(s) is Some && '0' <= d <= '9' ==> {
            let n = parsed_number(s)->0 * 10 + (d as u32 - 48);
            parsed_number(s.push(d)) == (if n <= u64::MAX {
                Some(n as u64)
            } else {
                None
            })
        },
        parsed_number(s) is Some && s[0] != '+' ==> parsed_number(seq!['+'] + s)
            == parsed_number(s),
{
    let t = if s.len() > 0 && s[0] == '+' {
        s.skip(1)
    } else {
        s
    };
    assert(digits_value(Seq::<char>::empty()) == 0);
    if parsed_number(s) is Some {
        assert forall|i: int| 0 <= i < s.len() && !(i == 0 && s[0] == '+') implies '0'
            <= #[trigger] s[i] <= '9' by {
            if s[0] == '+' {
                assert(t[i - 1] == s[i]);
            } else {
                assert(t[i] == s[i]);
            }
        }
    }
    if s.len() == 1 && '0' <= s[0] <= '9' {
        assert(s.drop_last() =~= seq![]);
        assert(all_digits(s));
    }
    if parsed_number(s) is Some && '0' <= d <= '9' {
        let u = s.push(d);
        let v = t.push(d);
        assert(u[0] == s[0]);
        if s[0] == '+' {
            assert(u.skip(1) =~= v);
        }
        assert(v.drop_last() =~= t);
        assert(all_digits(v)) by {
            assert forall|i: int| 0 <= i < v.len() implies '0' <= #[trigger] v[i] <= '9' by {
                if i < t.len() {
                    assert('0' <= t[i] <= '9');
                }
            }
        }
    }
    if parsed_number(s) is Some && s[0] != '+' {
        assert((seq!['+'] + s).skip(1) =~= s);
    }
}

/// Of a text that does not end in `c`, with any number of `c` behind it, the text is left.
pub proof fn lemma_dropped(s: Seq<char>, end: Seq<char>, c: char)
    requires
        s.len() > 0 ==> s.last() != c,
        forall|i: int| 0 <= i < end.len() ==> #[trigger] end[i] == c,
    ensures
        drop_trailing(s + end, c) == s,
{
    let t = s + end;
    let p = only(c);
    assert forall|j: int| t.len() - end.len() <= j < t.len() implies p(#[trigger] t[j]) by {
        assert(t[j] == end[j - s.len()]);
    }
    if s.len() > 0 {
        assert(t[s.len() - 1] == s.last());
    }
    lemma_tail_run(t, p, end.len() as int);
    assert(drop_trailing(t, c) =~= s);
}

/// A text with a character in it that is no white space does not vanish when trimmed.
pub proof fn lemma_not_all_white(s: Seq<char>, i: int)
    requires
        0 <= i < s.len(),
        !is_white(s[i]),
    ensures
        trimmed(s).len() > 0,
{
    let (a, b) = law_trimmed(s);
    if trimmed(s).len() == 0 {
        if i < a.len() {
            assert(s[i] == a[i]);
        } else {
            assert(s[i] == b[i - a.len()]);
        }
    }
}

/// Letters and digits are those of ASCII, and white space is none of them.
pub proof fn law_alphanumeric(c: char)
    ensures
        is_alphanumeric(c) <==> (48 <= c as u32 <= 57 || 65 <= c as u32 <= 90 || 97 <= c as u32
            <= 122),
        is_alphanumeric(c) ==> !is_white(c),
{
}

/// White space is what Unicode calls so: tabs, line breaks and spaces of all widths. Nothing that is
/// printed is.
pub proof fn law_white_space(c: char)
    ensures
        is_white(c) <==> {
            ||| c == '\t' || c == '\n' || c == '\u{b}' || c == '\u{c}' || c == '\r' || c == ' '
            ||| c == '\u{85}' || c == '\u{a0}' || c == '\u{1680}'
            ||| '\u{2000}' <= c <= '\u{200a}'
            ||| c == '\u{2028}' || c == '\u{2029}' || c == '\u{202f}' || c == '\u{205f}' || c
                == '\u{3000}'
        },
        '!' <= c <= '~' ==> !is_white(c),
{
}

} // verus!
