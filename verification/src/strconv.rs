//! Conversions between `str`/`String` and character vectors. The engine
//! works on `Vec<char>`, whose view matches the `Seq<char>` view of the
//! string types character for character.

use vstd::prelude::*;

verus! {

/// Relies on str::chars: iterating a string slice yields exactly the
/// characters of its view, in order; collecting gathers them into a vector.
#[verifier::external_body]
pub fn str_to_chars(s: &str) -> (r: Vec<char>)
    ensures
        r@ == s@,
{
    s.chars().collect()
}

/// Relies on String's FromIterator impl over char: collecting characters
/// builds the string whose characters are exactly those iterated, in order.
#[verifier::external_body]
pub fn chars_to_string(v: &Vec<char>) -> (r: String)
    ensures
        r@ == v@,
{
    v.iter().collect()
}

} // verus!
