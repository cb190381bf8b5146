//! Crossing between `Vec<char>`, the representation all verified text
//! manipulation here works on, and `String` / `&str` at the library
//! boundary.

use vstd::prelude::*;

verus! {

/// Relies on `String`'s `FromIterator<char>` impl: collecting an iterator of
/// chars yields a string of exactly those chars, in order.
#[verifier::external_body]
pub(crate) fn chars_to_string(v: &Vec<char>) -> (r: String)
    ensures
        r@ == v@,
{
    v.iter().collect()
}

/// Relies on `str::chars`: the iterator yields exactly the string's chars,
/// in order.
#[verifier::external_body]
pub(crate) fn str_to_chars(s: &str) -> (r: Vec<char>)
    ensures
        r@ == s@,
{
    s.chars().collect()
}

} // verus!
