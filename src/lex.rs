//! Character classes and position tests shared by the grammars.
use vstd::prelude::*;

verus! {

/// Horizontal white space: space, ideographic space and tab.
pub open spec fn is_space(c: char) -> bool {
    c == ' ' || c == '\u{3000}' || c == '\t'
}

/// An ASCII letter or digit.
pub open spec fn is_alnum(c: char) -> bool {
    ('a' <= c && c <= 'z') || ('A' <= c && c <= 'Z') || ('0' <= c && c <= '9')
}

/// Position `p` is the start of the text or follows a line break.
pub open spec fn at_line_begin(s: Seq<char>, p: int) -> bool {
    p == 0 || (0 < p <= s.len() && s[p - 1] == '\n')
}

/// Length of the line break at `p`: 1 for `\n`, 2 for `\r\n`, 0 where none starts there.
pub open spec fn break_len(s: Seq<char>, p: int) -> int {
    if 0 <= p < s.len() && s[p] == '\n' {
        1
    } else if 0 <= p && p + 1 < s.len() && s[p] == '\r' && s[p + 1] == '\n' {
        2
    } else {
        0
    }
}

/// Position `p` is the end of the text or starts a line break.
pub open spec fn at_line_end(s: Seq<char>, p: int) -> bool {
    p == s.len() || break_len(s, p) > 0
}

/// `pat` occurs in `s` at position `p`.
pub open spec fn starts_at(s: Seq<char>, p: int, pat: Seq<char>) -> bool {
    0 <= p && p + pat.len() <= s.len() && s.subrange(p, p + pat.len()) == pat
}

/// The character before position `p` is an ASCII letter or digit.
pub open spec fn after_alnum(s: Seq<char>, p: int) -> bool {
    0 < p <= s.len() && is_alnum(s[p - 1])
}

pub fn space(c: char) -> (r: bool)
    ensures
        r == is_space(c),
{
    c == ' ' || c == '\u{3000}' || c == '\t'
}

pub fn alnum(c: char) -> (r: bool)
    ensures
        r == is_alnum(c),
{
    ('a' <= c && c <= 'z') || ('A' <= c && c <= 'Z') || ('0' <= c && c <= '9')
}

pub fn line_begin(s: &Vec<char>, p: usize) -> (r: bool)
    requires
        p <= s.len(),
    ensures
        r == at_line_begin(s@, p as int),
{
    p == 0 || s[p - 1] == '\n'
}

/// Length of the line break at `p`.
pub fn line_break(s: &Vec<char>, p: usize) -> (r: usize)
    ensures
        r == break_len(s@, p as int),
        r <= 2,
{
    if p < s.len() && s[p] == '\n' {
        1
    } else if p < s.len() && s.len() - p > 1 && s[p] == '\r' && s[p + 1] == '\n' {
        2
    } else {
        0
    }
}

pub fn line_end(s: &Vec<char>, p: usize) -> (r: bool)
    requires
        p <= s.len(),
    ensures
        r == at_line_end(s@, p as int),
{
    p == s.len() || line_break(s, p) > 0
}

pub fn preceded_by_alnum(s: &Vec<char>, p: usize) -> (r: bool)
    requires
        p <= s.len(),
    ensures
        r == after_alnum(s@, p as int),
{
    p > 0 && alnum(s[p - 1])
}

/// Whether `pat` occurs in `s` at position `p`.
pub fn starts_with(s: &Vec<char>, p: usize, pat: &[char]) -> (r: bool)
    ensures
        r == starts_at(s@, p as int, pat@),
{
    if p > s.len() || pat.len() > s.len() - p {
        return false;
    }
    let mut i: usize = 0;
    while i < pat.len()
        invariant
            p + pat@.len() <= s.len(),
            i <= pat.len(),
            s@.subrange(p as int, p + i) == pat@.take(i as int),
        decreases pat.len() - i,
    {
        if s[p + i] != pat[i] {
            assert(s@.subrange(p as int, p + pat@.len())[i as int] != pat@[i as int]);
            return false;
        }
        i = i + 1;
        assert(s@.subrange(p as int, p + i) =~= pat@.take(i as int));
    }
    assert(pat@.take(i as int) =~= pat@);
    true
}

} // verus!
