//! The one step the renderer takes on trust: turning a finished character
//! vector into an owned `String`.

use vstd::prelude::*;

verus! {

/// Relies on `String`'s `FromIterator` implementation: collecting characters
/// yields a string whose characters are exactly those collected, in order.
#[verifier::external_body]
pub(crate) fn chars_to_string(v: Vec<char>) -> (s: String)
    ensures
        s@ == v@,
{
    v.into_iter().collect()
}

} // verus!
