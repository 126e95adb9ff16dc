//! Character-level building blocks: moving text between `String`, `&str`
//! and `Vec<char>`, on which the wrapping and styling logic operates.
use vstd::prelude::*;
use vstd::string::StrSliceExecFns;

verus! {

/// Appends every character of `src` to `out`.
pub fn append_chars(out: &mut Vec<char>, src: &Vec<char>)
    ensures
        final(out)@ == old(out)@ + src@,
{
    let mut i: usize = 0;
    while i < src.len()
        invariant
            i <= src.len(),
            out@ == old(out)@ + src@.subrange(0, i as int),
        decreases src.len() - i,
    {
        out.push(src[i]);
        assert(old(out)@ + src@.subrange(0, i + 1) =~= (old(out)@ + src@.subrange(0, i as int)).push(
            src@[i as int],
        ));
        i += 1;
    }
    assert(src@.subrange(0, src.len() as int) =~= src@);
}

/// Copies the characters of a string slice into a vector.
pub fn str_to_chars(s: &str) -> (r: Vec<char>)
    ensures
        r@ == s@,
{
    let n = s.unicode_len();
    let mut r: Vec<char> = Vec::new();
    let mut i: usize = 0;
    while i < n
        invariant
            i <= n,
            n == s@.len(),
            r@ == s@.subrange(0, i as int),
        decreases n - i,
    {
        r.push(s.get_char(i));
        assert(s@.subrange(0, i + 1) =~= s@.subrange(0, i as int).push(s@[i as int]));
        i += 1;
    }
    assert(s@.subrange(0, n as int) =~= s@);
    r
}

/// Relies on `String::push` from std: appends the given character to the
/// end of the string.
#[verifier::external_body]
fn push_char(s: &mut String, c: char)
    ensures
        final(s)@ == old(s)@.push(c),
{
    s.push(c);
}

/// Builds a `String` holding exactly the characters of `v`.
pub fn chars_to_string(v: &Vec<char>) -> (r: String)
    ensures
        r@ == v@,
{
    let mut r = String::new();
    let mut i: usize = 0;
    while i < v.len()
        invariant
            i <= v.len(),
            r@ == v@.subrange(0, i as int),
        decreases v.len() - i,
    {
        push_char(&mut r, v[i]);
        assert(v@.subrange(0, i + 1) =~= v@.subrange(0, i as int).push(v@[i as int]));
        i += 1;
    }
    assert(v@.subrange(0, v.len() as int) =~= v@);
    r
}

/// A vector of `n` copies of the character `c`.
pub fn repeat_char(c: char, n: usize) -> (r: Vec<char>)
    ensures
        r@ == Seq::new(n as nat, |k: int| c),
{
    let mut r: Vec<char> = Vec::new();
    let mut i: usize = 0;
    while i < n
        invariant
            i <= n,
            r@ == Seq::new(i as nat, |k: int| c),
        decreases n - i,
    {
        r.push(c);
        assert(Seq::new((i + 1) as nat, |k: int| c) =~= Seq::new(i as nat, |k: int| c).push(c));
        i += 1;
    }
    r
}

} // verus!
