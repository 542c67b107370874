//! Text made fit for HTML, for the path of a URL and for an element's ID.
use vstd::prelude::*;

use crate::text;

verus! {

// ---------------------------------------------------------------------------------------------
// HTML

/// What stands for `c` in HTML, in text and in quoted attributes alike.
pub open spec fn entity(c: char) -> Seq<char> {
    if c == '&' {
        "&amp;"@
    } else if c == '<' {
        "&lt;"@
    } else if c == '>' {
        "&gt;"@
    } else if c == '"' {
        "&quot;"@
    } else if c == '\'' {
        "&#39;"@
    } else {
        seq![c]
    }
}

/// `s` as it stands in HTML.
pub open spec fn escaped(s: Seq<char>) -> Seq<char>
    decreases s.len(),
{
    if s.len() == 0 {
        seq![]
    } else {
        escaped(s.drop_last()) + entity(s.last())
    }
}

/// `s` as it stands in HTML.
pub fn html_escape(s: &str) -> (out: String)
    ensures
        out@ == escaped(s@),
{
    let chars = text::chars_of(s);
    let mut out = String::new();
    let mut i: usize = 0;
    while i < chars.len()
        invariant
            i <= chars.len(),
            chars@ == s@,
            out@ == escaped(s@.take(i as int)),
        decreases chars.len() - i,
    {
        proof {
            assert(s@.take(i + 1).drop_last() =~= s@.take(i as int));
        }
        let ghost before = out@;
        let c: char = chars[i];
        if c == '&' {
            out.append("&amp;");
        } else if c == '<' {
            out.append("&lt;");
        } else if c == '>' {
            out.append("&gt;");
        } else if c == '"' {
            out.append("&quot;");
        } else if c == '\'' {
            out.append("&#39;");
        } else {
            out.push(c);
            assert(out@ =~= before + seq![c]);
        }
        i += 1;
    }
    assert(s@.take(i as int) =~= s@);
    out
}

/// Whether `c` has a meaning of its own in HTML text or in a quoted attribute.
pub open spec fn is_markup(c: char) -> bool {
    c == '<' || c == '>' || c == '"' || c == '\''
}

/// Escaped text holds no character that could open or close a tag or an attribute.
pub proof fn law_escaped_has_no_markup(s: Seq<char>)
    ensures
        forall|i: int| 0 <= i < escaped(s).len() ==> !is_markup(#[trigger] escaped(s)[i]),
    decreases s.len(),
{
    if s.len() > 0 {
        law_escaped_has_no_markup(s.drop_last());
        reveal_strlit("&amp;");
        reveal_strlit("&lt;");
        reveal_strlit("&gt;");
        reveal_strlit("&quot;");
        reveal_strlit("&#39;");
        let e = entity(s.last());
        let h = escaped(s.drop_last());
        assert forall|i: int| 0 <= i < escaped(s).len() implies !is_markup(
            #[trigger] escaped(s)[i],
        ) by {
            if i < h.len() {
                assert(escaped(s)[i] == h[i]);
            } else {
                assert(escaped(s)[i] == e[i - h.len()]);
            }
        }
    }
}

/// Escaping two texts one after the other is escaping both together.
pub proof fn law_escaping_is_piecewise(a: Seq<char>, b: Seq<char>)
    ensures
        escaped(a + b) == escaped(a) + escaped(b),
    decreases b.len(),
{
    if b.len() == 0 {
        assert(a + b =~= a);
        assert(escaped(a) + escaped(b) =~= escaped(a));
    } else {
        law_escaping_is_piecewise(a, b.drop_last());
        assert((a + b).drop_last() =~= a + b.drop_last());
        assert(escaped(a) + (escaped(b.drop_last()) + entity(b.last())) =~= (escaped(a) + escaped(
            b.drop_last(),
        )) + entity(b.last()));
    }
}

/// The text that escaped text stands for: each entity is the character it names.
pub open spec fn unescaped(s: Seq<char>) -> Seq<char>
    decreases s.len(),
{
    if s.len() == 0 {
        seq![]
    } else if s[0] != '&' {
        seq![s[0]] + unescaped(s.skip(1))
    } else if s.len() >= 5 && "&amp;"@.is_prefix_of(s) {
        seq!['&'] + unescaped(s.skip(5))
    } else if s.len() >= 4 && "&lt;"@.is_prefix_of(s) {
        seq!['<'] + unescaped(s.skip(4))
    } else if s.len() >= 4 && "&gt;"@.is_prefix_of(s) {
        seq!['>'] + unescaped(s.skip(4))
    } else if s.len() >= 6 && "&quot;"@.is_prefix_of(s) {
        seq!['"'] + unescaped(s.skip(6))
    } else if s.len() >= 5 && "&#39;"@.is_prefix_of(s) {
        seq!['\''] + unescaped(s.skip(5))
    } else {
        seq![s[0]] + unescaped(s.skip(1))
    }
}

/// Escaped text stands for the text that was escaped.
pub proof fn law_escaping_is_undone(s: Seq<char>)
    ensures
        unescaped(escaped(s)) == s,
    decreases s.len(),
{
    if s.len() > 0 {
        let c = s[0];
        let t = s.drop_first();
        law_escaping_is_undone(t);
        assert(s =~= seq![c] + t);
        law_escaping_is_piecewise(seq![c], t);
        assert(seq![c].drop_last() =~= seq![]);
        let e = entity(c);
        assert(escaped(seq![c]) =~= e) by {
            assert(escaped(seq![c]) == escaped(seq![]) + entity(c));
        }
        let r = escaped(t);
        let all = e + r;
        assert(escaped(s) == all);
        reveal_strlit("&amp;");
        reveal_strlit("&lt;");
        reveal_strlit("&gt;");
        reveal_strlit("&quot;");
        reveal_strlit("&#39;");
        assert(e.len() > 0 && all[0] == e[0]);
        assert(all.skip(e.len() as int) =~= r);
        assert(e.is_prefix_of(all)) by {
            assert(all.subrange(0, e.len() as int) =~= e);
        }
        if c == '&' {
            assert(all[1] == 'a');
        } else if c == '<' {
            assert(all[1] == 'l');
            assert("&amp;"@[1] == 'a');
            assert(!"&amp;"@.is_prefix_of(all));
        } else if c == '>' {
            assert(all[1] == 'g');
            assert("&amp;"@[1] == 'a' && "&lt;"@[1] == 'l');
            assert(!"&amp;"@.is_prefix_of(all) && !"&lt;"@.is_prefix_of(all));
        } else if c == '"' {
            assert(all[1] == 'q');
            assert("&amp;"@[1] == 'a' && "&lt;"@[1] == 'l' && "&gt;"@[1] == 'g');
            assert(!"&amp;"@.is_prefix_of(all) && !"&lt;"@.is_prefix_of(all)
                && !"&gt;"@.is_prefix_of(all));
        } else if c == '\'' {
            assert(all[1] == '#');
            assert("&amp;"@[1] == 'a' && "&lt;"@[1] == 'l' && "&gt;"@[1] == 'g' && "&quot;"@[1]
                == 'q');
            assert(!"&amp;"@.is_prefix_of(all) && !"&lt;"@.is_prefix_of(all)
                && !"&gt;"@.is_prefix_of(all) && !"&quot;"@.is_prefix_of(all));
        }
        assert(unescaped(all) =~= seq![c] + t);
    }
}

// ---------------------------------------------------------------------------------------------
// Paths

/// Whether a byte may stand in a path as it is.
pub open spec fn is_plain(b: u8) -> bool {
    ||| 0x41 <= b <= 0x5a
    ||| 0x61 <= b <= 0x7a
    ||| 0x30 <= b <= 0x39
    ||| b == 0x2d
    ||| b == 0x5f
    ||| b == 0x2e
    ||| b == 0x7e
    ||| b == 0x2f
}

/// The hexadecimal digit for `d`.
pub open spec fn hex_digit(d: int) -> char {
    if d < 10 {
        (0x30 + d) as char
    } else {
        (0x41 + d - 10) as char
    }
}

/// What stands for a byte in a path.
pub open spec fn path_byte(b: u8) -> Seq<char> {
    if is_plain(b) {
        seq![b as char]
    } else {
        seq!['%', hex_digit(b as int / 16), hex_digit(b as int % 16)]
    }
}

/// What stands for bytes in a path.
pub open spec fn path_escaped(bytes: Seq<u8>) -> Seq<char>
    decreases bytes.len(),
{
    if bytes.len() == 0 {
        seq![]
    } else {
        path_escaped(bytes.drop_last()) + path_byte(bytes.last())
    }
}

fn hex(d: u8) -> (c: char)
    requires
        d < 16,
    ensures
        c == hex_digit(d as int),
{
    if d < 10 {
        (0x30 + d) as char
    } else {
        (0x41 + d - 10) as char
    }
}

/// `s` as it stands in the path of a URL: letters, digits, `-`, `_`, `.`, `~` and `/` as they are,
/// every other byte of its UTF-8 as a percent sign and two hexadecimal digits.
pub fn url_path_escape(s: &str) -> (out: String)
    ensures
        out@ == path_escaped(vstd::utf8::encode_utf8(s@)),
{
    let bytes = s.as_bytes();
    let ghost all = vstd::utf8::encode_utf8(s@);
    let mut out = String::new();
    let mut i: usize = 0;
    while i < bytes.len()
        invariant
            i <= bytes.len(),
            bytes@ == all,
            out@ == path_escaped(all.take(i as int)),
        decreases bytes.len() - i,
    {
        proof {
            assert(all.take(i + 1).drop_last() =~= all.take(i as int));
        }
        let ghost before = out@;
        let b: u8 = bytes[i];
        if (0x41 <= b && b <= 0x5a) || (0x61 <= b && b <= 0x7a) || (0x30 <= b && b <= 0x39) || b
            == 0x2d || b == 0x5f || b == 0x2e || b == 0x7e || b == 0x2f {
            out.push(b as char);
        } else {
            out.push('%');
            out.push(hex(b / 16));
            out.push(hex(b % 16));
        }
        assert(out@ =~= before + path_byte(b));
        i += 1;
    }
    assert(all.take(i as int) =~= all);
    out
}

/// Whether a character occurs in an escaped path.
pub open spec fn is_path_char(c: char) -> bool {
    text::is_alphanumeric(c) || c == '-' || c == '_' || c == '.' || c == '~' || c == '/' || c == '%'
}

/// An escaped path holds letters, digits and the characters `-_.~/%` only.
pub proof fn law_escaped_path_is_plain(bytes: Seq<u8>)
    ensures
        forall|i: int|
            0 <= i < path_escaped(bytes).len() ==> is_path_char(#[trigger] path_escaped(bytes)[i]),
    decreases bytes.len(),
{
    if bytes.len() > 0 {
        law_escaped_path_is_plain(bytes.drop_last());
        let e = path_byte(bytes.last());
        let h = path_escaped(bytes.drop_last());
        assert forall|i: int| 0 <= i < path_escaped(bytes).len() implies is_path_char(
            #[trigger] path_escaped(bytes)[i],
        ) by {
            if i < h.len() {
                assert(path_escaped(bytes)[i] == h[i]);
            } else {
                assert(path_escaped(bytes)[i] == e[i - h.len()]);
            }
        }
    }
}

proof fn lemma_path_piecewise(a: Seq<u8>, b: Seq<u8>)
    ensures
        path_escaped(a + b) == path_escaped(a) + path_escaped(b),
    decreases b.len(),
{
    if b.len() == 0 {
        assert(a + b =~= a);
        assert(path_escaped(a) + path_escaped(b) =~= path_escaped(a));
    } else {
        lemma_path_piecewise(a, b.drop_last());
        assert((a + b).drop_last() =~= a + b.drop_last());
        assert(path_escaped(a) + (path_escaped(b.drop_last()) + path_byte(b.last())) =~= (
        path_escaped(a) + path_escaped(b.drop_last())) + path_byte(b.last()));
    }
}

/// What a hexadecimal digit stands for.
pub open spec fn hex_value(c: char) -> int {
    if c <= '9' {
        c as int - 0x30
    } else {
        c as int - 0x41 + 10
    }
}

/// The bytes that an escaped path stands for.
pub open spec fn path_unescaped(s: Seq<char>) -> Seq<u8>
    decreases s.len(),
{
    if s.len() == 0 {
        seq![]
    } else if s[0] == '%' && s.len() >= 3 {
        seq![(16 * hex_value(s[1]) + hex_value(s[2])) as u8] + path_unescaped(s.skip(3))
    } else {
        seq![s[0] as u8] + path_unescaped(s.skip(1))
    }
}

/// An escaped path stands for the text that was escaped.
pub proof fn law_path_escaping_is_undone(s: Seq<char>)
    ensures
        vstd::utf8::decode_utf8(path_unescaped(path_escaped(vstd::utf8::encode_utf8(s)))) == s,
{
    lemma_path_undone(vstd::utf8::encode_utf8(s));
    vstd::utf8::encode_utf8_decode_utf8(s);
}

proof fn lemma_path_undone(bytes: Seq<u8>)
    ensures
        path_unescaped(path_escaped(bytes)) == bytes,
    decreases bytes.len(),
{
    if bytes.len() > 0 {
        let b = bytes[0];
        let t = bytes.drop_first();
        lemma_path_undone(t);
        assert(bytes =~= seq![b] + t);
        lemma_path_piecewise(seq![b], t);
        assert(seq![b].drop_last() =~= seq![]);
        let e = path_byte(b);
        assert(path_escaped(seq![b]) =~= e) by {
            assert(path_escaped(seq![b]) == path_escaped(seq![]) + path_byte(b));
        }
        let all = e + path_escaped(t);
        assert(all.skip(e.len() as int) =~= path_escaped(t));
        assert(all[0] == e[0]);
        if !is_plain(b) {
            assert(all[1] == e[1] && all[2] == e[2]);
            assert(hex_value(hex_digit(b as int / 16)) == b as int / 16);
            assert(hex_value(hex_digit(b as int % 16)) == b as int % 16);
        }
        assert(path_unescaped(all) =~= seq![b] + t);
    }
}

// ---------------------------------------------------------------------------------------------
// Element IDs

/// What stands for `c` in an element's ID.
pub open spec fn slug_char(c: char) -> char {
    if text::is_alphanumeric(c) || c == '-' || c == '_' {
        c
    } else {
        '-'
    }
}

/// What stands for `s` in an element's ID.
pub open spec fn slug(s: Seq<char>) -> Seq<char> {
    Seq::new(s.len(), |i: int| slug_char(s[i]))
}

/// `s` with a hyphen in place of every character but letters, digits, `-` and `_`.
pub fn id_slug(s: &str) -> (out: String)
    ensures
        out@ == slug(s@),
{
    let chars = text::chars_of(s);
    let mut out = String::new();
    let mut i: usize = 0;
    while i < chars.len()
        invariant
            i <= chars.len(),
            chars@ == s@,
            out@ =~= slug(s@).take(i as int),
        decreases chars.len() - i,
    {
        let c: char = chars[i];
        if text::alphanumeric(c) || c == '-' || c == '_' {
            out.push(c);
        } else {
            out.push('-');
        }
        i += 1;
    }
    assert(slug(s@).take(i as int) =~= slug(s@));
    out
}

/// Text without any of the five characters that HTML takes for itself stays as it is.
pub proof fn law_plain_text_stays(s: Seq<char>)
    requires
        !s.contains('&'),
        !s.contains('<'),
        !s.contains('>'),
        !s.contains('"'),
        !s.contains('\''),
    ensures
        escaped(s) == s,
    decreases s.len(),
{
    if s.len() == 0 {
        assert(escaped(s) =~= s);
    } else {
        let t = s.drop_last();
        assert forall|c: char| t.contains(c) implies s.contains(c) by {
            let i = choose|i: int| 0 <= i < t.len() && t[i] == c;
            assert(s[i] == c);
        }
        law_plain_text_stays(t);
        assert(s.contains(s.last()));
        assert(escaped(s) =~= s);
    }
}

/// A path is escaped byte by byte: ASCII letters and digits, `-`, `_`, `.`, `~` and `/` stay as they
/// are, and every other byte becomes a percent sign and two digits.
pub proof fn law_path_escaping_is_piecewise(a: Seq<u8>, b: u8)
    ensures
        path_escaped(Seq::<u8>::empty()).len() == 0,
        48 <= b <= 57 || 65 <= b <= 90 || 97 <= b <= 122 || b == 45 || b == 95 || b == 46 || b == 126
            || b == 47 ==> path_escaped(a.push(b)) == path_escaped(a).push(b as char),
        !(48 <= b <= 57 || 65 <= b <= 90 || 97 <= b <= 122 || b == 45 || b == 95 || b == 46 || b
            == 126 || b == 47) ==> {
            let e = path_escaped(a.push(b));
            let n = path_escaped(a).len() as int;
            &&& e.len() == n + 3
            &&& e.take(n) == path_escaped(a)
            &&& e[n] == '%'
            &&& hex_value(e[n + 1]) * 16 + hex_value(e[n + 2]) == b
            &&& '0' <= e[n + 1] <= '9' || 'A' <= e[n + 1] <= 'F'
            &&& '0' <= e[n + 2] <= '9' || 'A' <= e[n + 2] <= 'F'
        },
{
    let s = a.push(b);
    assert(s.drop_last() =~= a);
    assert(s.last() == b);
    assert(path_escaped(s) == path_escaped(a) + path_byte(b));
    if is_plain(b) {
        assert(path_escaped(s) =~= path_escaped(a).push(b as char));
    } else {
        assert(path_escaped(s).take(path_escaped(a).len() as int) =~= path_escaped(a));
        let (h, l) = (b as int / 16, b as int % 16);
        assert(0 <= h < 16 && 0 <= l < 16 && h * 16 + l == b);
    }
}

/// A slug keeps ASCII letters, digits, `-` and `_` in their places; a `-` stands for each other
/// character.
pub proof fn law_slug(s: Seq<char>)
    ensures
        slug(s).len() == s.len(),
        forall|i: int|
            0 <= i < s.len() && ('a' <= s[i] <= 'z' || 'A' <= s[i] <= 'Z' || '0' <= s[i] <= '9'
                || s[i] == '-' || s[i] == '_') ==> #[trigger] slug(s)[i] == s[i],
        forall|i: int|
            0 <= i < s.len() && !('a' <= s[i] <= 'z' || 'A' <= s[i] <= 'Z' || '0' <= s[i] <= '9'
                || s[i] == '-' || s[i] == '_') ==> #[trigger] slug(s)[i] == '-',
{
}

} // verus!
