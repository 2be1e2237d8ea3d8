//! Conversions between `String` and character vectors.
//!
//! The engine does all of its character work on `Vec<char>`, where every step
//! is verified; these two trusted conversions sit at the boundary where a
//! `String` enters or leaves.

use vstd::prelude::*;

verus! {

/// Relies on str::chars and Vec's FromIterator: yields exactly the characters
/// of `s`, in order.
#[verifier::external_body]
pub fn str_to_chars(s: &str) -> (r: Vec<char>)
    ensures
        r@ == s@,
{
    s.chars().collect()
}

/// Relies on String's FromIterator over char: concatenates exactly the given
/// characters, in order.
#[verifier::external_body]
pub fn chars_to_string(v: &[char]) -> (r: String)
    ensures
        r@ == v@,
{
    v.iter().collect()
}

} // verus!
