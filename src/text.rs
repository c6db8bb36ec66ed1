//! Small string helpers shared by the parser and the renderer.

use vstd::prelude::*;

verus! {

/// Relies on `String::push`: appends one character at the end.
#[verifier::external_body]
pub(crate) fn push_char(s: &mut String, c: char)
    ensures
        final(s)@ == old(s)@.push(c),
{
    s.push(c)
}

/// Relies on `String::push_str`: appends the characters of `t` at the end.
#[verifier::external_body]
pub(crate) fn push_text(s: &mut String, t: &str)
    ensures
        final(s)@ == old(s)@ + t@,
{
    s.push_str(t)
}

/// Builds an owned string from a slice of characters.
pub fn string_of_chars(cs: &[char], start: usize, end: usize) -> (r: String)
    requires
        start <= end <= cs@.len(),
    ensures
        r@ == cs@.subrange(start as int, end as int),
{
    let mut r = String::new();
    let mut i: usize = start;
    while i < end
        invariant
            start <= i <= end <= cs@.len(),
            r@ == cs@.subrange(start as int, i as int),
        decreases end - i,
    {
        push_char(&mut r, cs[i]);
        assert(cs@.subrange(start as int, i + 1) == cs@.subrange(start as int, i as int).push(cs@[i as int]));
        i = i + 1;
    }
    r
}

/// The characters of a text.
pub fn chars_of(s: &str) -> (r: Vec<char>)
    ensures
        r@ == s@,
{
    let mut r: Vec<char> = Vec::new();
    for c in it: s.chars()
        invariant
            it.seq() == s@,
            r@ == s@.take(it.index() as int),
    {
        r.push(c);
        assert(r@ =~= s@.take(it.index() + 1));
    }
    assert(s@.take(s@.len() as int) =~= s@);
    r
}

/// Whether two texts hold the same characters.
pub fn same_text(a: &str, b: &str) -> (r: bool)
    ensures
        r == (a@ == b@),
{
    let x = a.to_owned();
    let y = b.to_owned();
    x == y
}

} // verus!
