//! The few steps between `String` and `Vec<char>` that std performs.

use vstd::prelude::*;

verus! {

/// Relies on str::chars: it yields the characters of the slice, in order.
#[verifier::external_body]
pub(crate) fn str_to_chars(s: &str) -> (r: Vec<char>)
    ensures
        r@ == s@,
{
    s.chars().collect()
}

/// Relies on String's FromIterator of char: collecting characters yields
/// the string of exactly those characters, in order.
#[verifier::external_body]
pub(crate) fn chars_to_string(v: &Vec<char>) -> (r: String)
    ensures
        r@ == v@,
{
    v.iter().collect()
}

/// Relies on char::from_u32: it returns Some exactly for values that are
/// Unicode scalar values, and that scalar.
#[verifier::external_body]
pub(crate) fn char_from_code(u: u32) -> (c: char)
    requires
        u < 0xD800 || (0xE000 <= u && u <= 0x10FFFF),
    ensures
        c == u as char,
{
    char::from_u32(u).unwrap()
}

} // verus!
