//! Character classes and trimming for the lines of the chat protocol.

use vstd::prelude::*;

verus! {

/// The characters a name may consist of: ASCII letters and digits.
pub open spec fn is_alnum(c: char) -> bool {
    ('a' <= c && c <= 'z') || ('A' <= c && c <= 'Z') || ('0' <= c && c <= '9')
}

/// The characters that trimming removes: those with the Unicode property
/// `White_Space`.
pub open spec fn is_space(c: char) -> bool {
    c == ' ' || ('\u{9}' <= c && c <= '\u{d}') || c == '\u{85}' || c == '\u{a0}' || c
        == '\u{1680}' || ('\u{2000}' <= c && c <= '\u{200a}') || c == '\u{2028}' || c
        == '\u{2029}' || c == '\u{202f}' || c == '\u{205f}' || c == '\u{3000}'
}

/// How many whitespace characters `s` starts with.
pub open spec fn leading_spaces(s: Seq<char>) -> nat
    decreases s.len(),
{
    if s.len() > 0 && is_space(s.first()) {
        1 + leading_spaces(s.drop_first())
    } else {
        0
    }
}

/// How many whitespace characters `s` ends with.
pub open spec fn trailing_spaces(s: Seq<char>) -> nat
    decreases s.len(),
{
    if s.len() > 0 && is_space(s.last()) {
        1 + trailing_spaces(s.drop_last())
    } else {
        0
    }
}

/// `s` without its trailing whitespace.
pub open spec fn trim_end_of(s: Seq<char>) -> Seq<char> {
    s.take(s.len() - trailing_spaces(s))
}

/// `s` without its leading whitespace.
pub open spec fn trim_start_of(s: Seq<char>) -> Seq<char> {
    s.skip(leading_spaces(s) as int)
}

/// `s` without the whitespace at either end.
pub open spec fn trimmed(s: Seq<char>) -> Seq<char> {
    trim_start_of(trim_end_of(s))
}

/// `s` without the one newline that may terminate it.
pub open spec fn without_newline(s: Seq<char>) -> Seq<char> {
    if s.len() > 0 && s.last() == '\n' {
        s.drop_last()
    } else {
        s
    }
}

/// A name is valid when it is nonempty and wholly alphanumeric.
pub open spec fn valid_name(s: Seq<char>) -> bool {
    s.len() > 0 && forall|i: int| 0 <= i < s.len() ==> is_alnum(#[trigger] s[i])
}

/// The leading whitespace run of `s` has length `k` as soon as the first
/// `k` characters are whitespace and the next one, if any, is not.
pub proof fn lemma_leading_spaces(s: Seq<char>, k: int)
    requires
        0 <= k <= s.len(),
        forall|i: int| 0 <= i < k ==> is_space(#[trigger] s[i]),
        k < s.len() ==> !is_space(s[k]),
    ensures
        leading_spaces(s) == k,
    decreases k,
{
    if k > 0 {
        let t = s.drop_first();
        assert forall|i: int| 0 <= i < k - 1 implies is_space(#[trigger] t[i]) by {
            assert(t[i] == s[i + 1]);
        }
        lemma_leading_spaces(t, k - 1);
    }
}

/// The trailing whitespace run of `s` has length `k` as soon as the last
/// `k` characters are whitespace and the one before them, if any, is not.
pub proof fn lemma_trailing_spaces(s: Seq<char>, k: int)
    requires
        0 <= k <= s.len(),
        forall|i: int| s.len() - k <= i < s.len() ==> is_space(#[trigger] s[i]),
        k < s.len() ==> !is_space(s[s.len() - k - 1]),
    ensures
        trailing_spaces(s) == k,
    decreases k,
{
    if k > 0 {
        let t = s.drop_last();
        assert forall|i: int| t.len() - (k - 1) <= i < t.len() implies is_space(
            #[trigger] t[i],
        ) by {
            assert(t[i] == s[i]);
        }
        lemma_trailing_spaces(t, k - 1);
    }
}

/// Trimming leaves no whitespace at either end.
pub proof fn lemma_trimmed_is_tight(s: Seq<char>)
    ensures
        trimmed(s).len() > 0 ==> !is_space(trimmed(s).first()) && !is_space(trimmed(s).last()),
        trim_end_of(s).len() > 0 ==> !is_space(trim_end_of(s).last()),
        trim_end_of(s).len() <= s.len(),
        trimmed(s).len() <= s.len(),
{
    lemma_trailing_run(s);
    let t = trim_end_of(s);
    lemma_leading_run(t);
}

/// What `leading_spaces` counts: a run of whitespace that a character of
/// another kind, or the end, follows.
pub proof fn lemma_leading_run(s: Seq<char>)
    ensures
        leading_spaces(s) <= s.len(),
        forall|i: int| 0 <= i < leading_spaces(s) ==> is_space(#[trigger] s[i]),
        leading_spaces(s) < s.len() ==> !is_space(s[leading_spaces(s) as int]),
    decreases s.len(),
{
    if s.len() > 0 && is_space(s.first()) {
        let t = s.drop_first();
        lemma_leading_run(t);
        assert forall|i: int| 0 <= i < leading_spaces(s) implies is_space(#[trigger] s[i]) by {
            if i > 0 {
                assert(s[i] == t[i - 1]);
            }
        }
        if leading_spaces(s) < s.len() {
            assert(s[leading_spaces(s) as int] == t[leading_spaces(t) as int]);
        }
    }
}

/// What `trailing_spaces` counts: a run of whitespace that a character of
/// another kind, or the start, precedes.
pub proof fn lemma_trailing_run(s: Seq<char>)
    ensures
        trailing_spaces(s) <= s.len(),
        forall|i: int| s.len() - trailing_spaces(s) <= i < s.len() ==> is_space(#[trigger] s[i]),
        trailing_spaces(s) < s.len() ==> !is_space(s[s.len() - trailing_spaces(s) - 1]),
    decreases s.len(),
{
    if s.len() > 0 && is_space(s.last()) {
        let t = s.drop_last();
        lemma_trailing_run(t);
        assert forall|i: int| s.len() - trailing_spaces(s) <= i < s.len() implies is_space(
            #[trigger] s[i],
        ) by {
            if i < s.len() - 1 {
                assert(s[i] == t[i]);
            }
        }
        if trailing_spaces(s) < s.len() {
            assert(s[s.len() - trailing_spaces(s) - 1] == t[t.len() - trailing_spaces(t) - 1]);
        }
    }
}

/// Whether `c` is an ASCII letter or digit.
pub fn is_alphanumeric(c: char) -> (r: bool)
    ensures
        r == is_alnum(c),
{
    ('a' <= c && c <= 'z') || ('A' <= c && c <= 'Z') || ('0' <= c && c <= '9')
}

/// Whether trimming removes `c`.
pub fn is_whitespace(c: char) -> (r: bool)
    ensures
        r == is_space(c),
{
    c == ' ' || ('\u{9}' <= c && c <= '\u{d}') || c == '\u{85}' || c == '\u{a0}' || c
        == '\u{1680}' || ('\u{2000}' <= c && c <= '\u{200a}') || c == '\u{2028}' || c
        == '\u{2029}' || c == '\u{202f}' || c == '\u{205f}' || c == '\u{3000}'
}

/// Whether `s` is a valid name.
pub fn is_valid_name(s: &str) -> (r: bool)
    ensures
        r == valid_name(s@),
{
    let mut ok = true;
    let mut any = false;
    for c in it: s.chars()
        invariant
            it.seq() == s@,
            any == (it.index() > 0),
            ok == (forall|i: int| 0 <= i < it.index() ==> is_alnum(#[trigger] s@[i])),
    {
        any = true;
        if !is_alphanumeric(c) {
            ok = false;
        }
    }
    any && ok
}

/// The part of `s` that is left when the whitespace at its end is removed.
pub fn trim_end(s: &str) -> (r: &str)
    ensures
        r@ == trim_end_of(s@),
{
    let len = s.unicode_len();
    let mut end: usize = 0;
    let mut n: usize = 0;
    for c in it: s.chars()
        invariant
            it.seq() == s@,
            len == s@.len(),
            n == it.index(),
            end <= n <= len,
            end > 0 ==> !is_space(s@[end - 1]),
            forall|i: int| end <= i < n ==> is_space(#[trigger] s@[i]),
    {
        n = n + 1;
        if !is_whitespace(c) {
            end = n;
        }
    }
    proof {
        lemma_trailing_spaces(s@, len - end);
    }
    s.substring_char(0, end)
}

/// The part of `s` that is left when the whitespace at both ends is removed.
pub fn trim(s: &str) -> (r: &str)
    ensures
        r@ == trimmed(s@),
{
    let len = s.unicode_len();
    let mut start: usize = 0;
    let mut end: usize = 0;
    let mut n: usize = 0;
    for c in it: s.chars()
        invariant
            it.seq() == s@,
            len == s@.len(),
            n == it.index(),
            end <= n <= len,
            start <= n,
            end > 0 ==> !is_space(s@[end - 1]),
            forall|i: int| end <= i < n ==> is_space(#[trigger] s@[i]),
            forall|i: int| 0 <= i < start ==> is_space(#[trigger] s@[i]),
            start < n ==> !is_space(s@[start as int]) && start < end,
            start == n ==> end == 0,
    {
        if is_whitespace(c) {
            if start == n {
                start = n + 1;
            }
        } else {
            end = n + 1;
        }
        n = n + 1;
    }
    proof {
        lemma_trailing_spaces(s@, len - end);
    }
    if end == 0 {
        proof {
            lemma_leading_spaces(s@.take(0), 0);
            assert(trimmed(s@) =~= s@.subrange(0, 0));
        }
        s.substring_char(0, 0)
    } else {
        proof {
            let t = s@.take(end as int);
            lemma_leading_spaces(t, start as int);
            assert(t.skip(start as int) =~= s@.subrange(start as int, end as int));
        }
        s.substring_char(start, end)
    }
}

/// `s` without the newline that terminates it, if one does.
pub fn strip_newline(s: &str) -> (r: &str)
    ensures
        r@ == without_newline(s@),
{
    let len = s.unicode_len();
    if len > 0 && s.get_char(len - 1) == '\n' {
        let r = s.substring_char(0, len - 1);
        assert(r@ =~= s@.drop_last());
        r
    } else {
        s
    }
}

} // verus!
