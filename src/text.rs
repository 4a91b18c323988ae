use vstd::prelude::*;

verus! {

broadcast use vstd::string::axiom_spec_iter;

/// A character of the class `[a-zA-Z0-9_]`.
pub open spec fn is_word_char(c: char) -> bool {
    ('a' <= c && c <= 'z') || ('A' <= c && c <= 'Z') || ('0' <= c && c <= '9') || c == '_'
}

/// A non-empty text made only of characters of `[a-zA-Z0-9_]`.
pub open spec fn is_word(s: Seq<char>) -> bool {
    s.len() > 0 && forall|i: int| 0 <= i < s.len() ==> is_word_char(#[trigger] s[i])
}

/// The number of characters of `s`, counted up to `cap`.
pub open spec fn capped_len(s: Seq<char>, cap: usize) -> nat {
    if s.len() < cap { s.len() } else { cap as nat }
}

pub fn word_char(c: char) -> (r: bool)
    ensures
        r == is_word_char(c),
{
    ('a' <= c && c <= 'z') || ('A' <= c && c <= 'Z') || ('0' <= c && c <= '9') || c == '_'
}

/// Tests `s` against the pattern `^[a-zA-Z0-9_]+$`.
pub fn matches_word(s: &str) -> (r: bool)
    ensures
        r == is_word(s@),
{
    let mut ok = true;
    for c in it: s.chars()
        invariant
            it.seq() == s@,
            ok == forall|i: int| 0 <= i < it.index() ==> is_word_char(#[trigger] s@[i]),
    {
        ok = ok && word_char(c);
    }
    ok && !s.is_empty()
}

/// Counts the characters (Unicode scalar values) of `s`, stopping at `cap`.
pub fn count_chars(s: &str, cap: usize) -> (n: usize)
    ensures
        n == capped_len(s@, cap),
{
    let mut n: usize = 0;
    for c in it: s.chars()
        invariant
            it.seq() == s@,
            n == capped_len(s@.take(it.index() as int), cap),
    {
        if n < cap {
            n = n + 1;
        }
    }
    n
}

} // verus!
