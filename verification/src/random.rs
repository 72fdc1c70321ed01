//! Randomness from the `fastrand` crate.

use vstd::prelude::*;

verus! {

/// Calls `fastrand::usize(..n)`, a random index below `n` drawn from the
/// thread-local generator. Trusted: the result is below `n`; which value
/// comes out depends on chance and is not stated. `fastrand` panics on an
/// empty range, so `n` must be positive.
#[verifier::external_body]
pub(crate) fn random_below(n: usize) -> (r: usize)
    requires
        n > 0,
    ensures
        r < n,
{
    fastrand::usize(..n)
}

/// Calls `fastrand::shuffle` on the vector's elements. Trusted: the shuffle
/// only swaps elements, so the result holds the same elements as before,
/// each as often; their order depends on chance and is not stated.
#[verifier::external_body]
pub(crate) fn shuffle<T>(v: &mut Vec<T>)
    ensures
        final(v)@.to_multiset() == old(v)@.to_multiset(),
{
    fastrand::shuffle(v.as_mut_slice())
}

} // verus!
