//! What the daemon is told when it starts: directories and addresses.
use vstd::prelude::*;

use crate::text;

verus! {

/// A directory as given on the command line.
#[derive(Debug)]
pub enum Expansion {
    /// This, below the home directory.
    BelowHome(String),
    /// As it was given.
    AsGiven,
}

/// Takes a `~/` at the start for the home directory, where there is one.
pub fn expand_tilde(s: &str, has_home: bool) -> (out: Expansion)
    ensures
        match out {
            Expansion::BelowHome(rest) => has_home && text::after_prefix(s@, "~/"@) == Some(rest@),
            Expansion::AsGiven => !has_home || text::after_prefix(s@, "~/"@) is None,
        },
        out is BelowHome <==> has_home && s@.len() >= 2 && s@[0] == '~' && s@[1] == '/',
        match out {
            Expansion::BelowHome(rest) => s@ == seq!['~', '/'] + rest@,
            Expansion::AsGiven => true,
        },
{
    proof {
        reveal_strlit("~/");
        assert("~/"@ =~= seq!['~', '/']);
        if s@.len() >= 2 && s@[0] == '~' && s@[1] == '/' {
            text::law_prefix_and_suffix(s@, "~/"@, s@.skip(2));
            assert(s@ =~= "~/"@ + s@.skip(2));
        }
        if text::after_prefix(s@, "~/"@) is Some {
            text::law_prefix_and_suffix(s@, "~/"@, text::after_prefix(s@, "~/"@)->0);
        }
    }
    let chars = text::chars_of(s);
    if has_home {
        if let Some(rest) = text::strip_prefix(chars.as_slice(), "~/") {
            return Expansion::BelowHome(text::text_of(rest));
        }
    }
    Expansion::AsGiven
}

/// The addresses to listen on: those given; where none were, the one that was detected, if any,
/// and the loopback address.
pub fn bind_ips<T>(given: Vec<T>, detected: Option<T>, loopback: T) -> (out: Vec<T>)
    ensures
        out@ == (if given@.len() > 0 {
            given@
        } else {
            match detected {
                Some(ip) => seq![ip, loopback],
                None => seq![loopback],
            }
        }),
        out@.len() > 0,
        given@.len() > 0 ==> out@ == given@,
        given@.len() == 0 ==> out@.last() == loopback,
        given@.len() == 0 && detected is Some ==> out@.first() == detected->0,
{
    if given.len() > 0 {
        return given;
    }
    let mut out: Vec<T> = Vec::new();
    if let Some(ip) = detected {
        out.push(ip);
    }
    out.push(loopback);
    out
}

/// The arguments that ask tailscale for its addresses.
pub fn tailscale_args() -> (out: Vec<String>)
    ensures
        out.deep_view() == seq!["ip"@, "-4"@],
{
    let out = vec!["ip".to_owned(), "-4".to_owned()];
    assert(out.deep_view() =~= seq!["ip"@, "-4"@]);
    out
}

/// The first of the lines, without white space around it.
pub open spec fn first_line(lines: Seq<Seq<char>>) -> Option<Seq<char>> {
    if lines.len() == 0 {
        None
    } else {
        Some(text::trimmed(lines[0]))
    }
}

/// The first line of a text, without white space around it.
pub fn head_line(s: &str) -> (out: Option<String>)
    ensures
        out.deep_view() == first_line(text::line_list(s@)),
{
    let chars = text::chars_of(s);
    let lines = text::lines(chars.as_slice());
    let ghost all = text::views(lines@);
    if lines.len() == 0 {
        return None;
    }
    assert(all[0] == lines@[0]@);
    Some(text::text_of(text::trim(lines[0])))
}

/// The address that `tailscale ip` printed first; `None` where it printed nothing.
pub fn detect_ip(stdout: &[u8]) -> (out: Option<String>)
    ensures
        out.deep_view() == first_line(text::line_list(text::utf8_lossy(stdout@))),
{
    let s = text::from_utf8_lossy(stdout);
    head_line(s.as_str())
}

/// The address is what stands on the first line that was printed, without the white space around
/// it, whatever follows; where nothing was printed there is none.
pub proof fn law_first_line(line: Seq<char>, rest: Seq<char>)
    requires
        !line.contains('\n'),
        line.len() > 0 ==> line.last() != '\r',
    ensures
        first_line(text::line_list(line + seq!['\n'] + rest)) == Some(text::trimmed(line)),
        line.len() > 0 ==> first_line(text::line_list(line)) == Some(text::trimmed(line)),
        first_line(text::line_list(Seq::empty())) is None,
{
    text::law_lines(line, rest);
    text::law_lines(Seq::empty(), rest);
}

} // verus!
