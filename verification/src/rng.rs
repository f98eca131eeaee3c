//! Source of randomness for target selection.

use vstd::prelude::*;

verus! {

/// Relies on `rand::random_range`: it returns a uniformly random value
/// inside the given range, and panics only on an empty range, which
/// `n > 0` rules out here. Nothing more is assumed of the value than its
/// bound; two calls may differ.
#[verifier::external_body]
pub(crate) fn random_below(n: usize) -> (r: usize)
    requires
        n > 0,
    ensures
        r < n,
{
    rand::random_range(0..n)
}

} // verus!
