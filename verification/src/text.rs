//! The one bridge from verified character sequences to `String`.

use vstd::prelude::*;

verus! {

/// Relies on `Iterator::collect` for `String` from `std`: collecting the
/// characters of a `Vec<char>` yields the string of exactly those characters,
/// in order.
#[verifier::external_body]
pub fn chars_to_string(chars: &Vec<char>) -> (r: String)
    ensures
        r@ == chars@,
{
    chars.iter().collect()
}

} // verus!
