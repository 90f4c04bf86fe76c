//! A relay between a chat client and its server that passes every line
//! on, but for the payment addresses in it: each is replaced by one
//! address.

use regex::Regex;
use vstd::prelude::*;

verus! {

/// Where the lines of a client are relayed to.
pub const UPSTREAM_ADDR: &'static str = "chat.protohackers.com:16963";

/// What takes the place of an address: what came before it, the one
/// address, and what came after.
pub const TONY_ADDR: &'static str = "${1}7YWHMfk9JZe0LM0g1ZauHuiSxhI${2}";

/// What counts as an address: a `7` and 25 to 34 more characters out of
/// letters, digits, `?` and `:`, after at most one space, and before a
/// space, a newline or the end.
pub const PATTERN: &'static str = "( ?)7[?:A-Za-z0-9]{25,34}($| |\\n)";

/// The text that `regex` makes of `text` when every match of `pattern` is
/// replaced by `replacement`, in which `${1}` and `${2}` stand for what the
/// groups matched.  `None` where `pattern` is no pattern to `regex`.
pub uninterp spec fn regex_replace_all(
    pattern: Seq<char>,
    text: Seq<char>,
    replacement: Seq<char>,
) -> Option<Seq<char>>;

/// `text` with every match of `pattern` replaced.
///
/// This is `regex::Regex::new` followed by `Regex::replace_all`.  The
/// first fails on a pattern that is malformed or too large; the second
/// replaces the matches from left to right, none overlapping another, and
/// expands the group references of `replacement`.  Both go by their
/// arguments alone, so the result has a name and no more is said of it.
#[verifier::external_body]
fn replace_all(pattern: &str, text: &str, replacement: &str) -> (out: Option<String>)
    ensures
        match out {
            Some(s) => regex_replace_all(pattern@, text@, replacement@) == Some(s@),
            None => regex_replace_all(pattern@, text@, replacement@) is None,
        },
{
    match Regex::new(pattern) {
        Ok(re) => Some(re.replace_all(text, replacement).into_owned()),
        Err(_) => None,
    }
}

/// What is passed on in place of `line`: the line with every address in it
/// replaced.
pub open spec fn rewritten(line: Seq<char>) -> Option<Seq<char>> {
    regex_replace_all(PATTERN@, line, TONY_ADDR@)
}

/// Rewrites one line on its way through the relay.
pub fn rewrite(line: &str) -> (out: Option<String>)
    ensures
        match out {
            Some(s) => rewritten(line@) == Some(s@),
            None => rewritten(line@) is None,
        },
{
    replace_all(PATTERN, line, TONY_ADDR)
}

} // verus!
