//! The crate's single source of randomness: a bounded draw from the
//! thread-local generator of the `rand` crate.

use vstd::prelude::*;

verus! {

/// Relies on rand::random_range: returns a value drawn from the given
/// range, and panics only when the range is empty.  Nothing further is
/// stated of the draw: the contract says only that the result lies below
/// the bound, and callers must cope with every such value.
#[verifier::external_body]
pub fn random_below(bound: usize) -> (r: usize)
    requires
        bound > 0,
    ensures
        r < bound,
{
    rand::random_range(0..bound)
}

} // verus!
