//! The injected source of uniform random perturbations.

use vstd::prelude::*;

verus! {

/// Relies on rand::random_range: a uniform sample from the thread-local
/// generator within the given inclusive range; it panics only on an empty
/// range, which the precondition rules out.  Nothing more is assumed of
/// the sample than its bounds.
#[verifier::external_body]
pub(crate) fn random_in_range(low: i64, high: i64) -> (r: i64)
    requires
        low <= high,
    ensures
        low <= r <= high,
{
    rand::random_range(low..=high)
}

} // verus!
