//! Moving between strings and sequences of characters.

use vstd::prelude::*;

verus! {

/// Appends one character to a string.
///
/// Trusted: the body is `String::push` of the standard library, which is
/// documented to append the given `char` to the end of the string. The
/// contract says just that, over the string's view.
#[verifier::external_body]
pub(crate) fn push_char(out: &mut String, c: char)
    ensures
        final(out)@ == old(out)@.push(c),
{
    out.push(c)
}

/// Copies the characters of `s` into a vector, in order.
pub fn chars_of(s: &str) -> (v: Vec<char>)
    ensures
        v@ == s@,
{
    let mut v: Vec<char> = Vec::new();
    for c in it: s.chars()
        invariant
            v@ == s@.take(it.index() as int),
            it.seq() == s@,
    {
        v.push(c);
    }
    v
}

/// Builds the string that holds the characters `v[from..to]`.
pub fn string_of(v: &Vec<char>, from: usize, to: usize) -> (s: String)
    requires
        from <= to <= v.len(),
    ensures
        s@ == v@.subrange(from as int, to as int),
{
    let mut s = String::new();
    let mut i: usize = from;
    while i < to
        invariant
            from <= i <= to <= v.len(),
            s@ == v@.subrange(from as int, i as int),
        decreases to - i,
    {
        push_char(&mut s, v[i]);
        i += 1;
    }
    s
}


/// The character with the code `code`, if there is one.
///
/// Trusted: the body is `char::from_u32` of the standard library, which is
/// documented to give `None` exactly when `code` is no Unicode scalar value
/// (a surrogate, or above U+10FFFF), and else the character with that code.
#[verifier::external_body]
pub(crate) fn char_of(code: u32) -> (c: Option<char>)
    ensures
        c == if vstd::utf8::is_scalar(code) {
            Some(code as char)
        } else {
            None
        },
{
    char::from_u32(code)
}

} // verus!
