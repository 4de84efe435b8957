//! Trusted access to the `rand` crate: a fresh thread-local generator, an
//! in-place shuffle, and a uniform pick among three symbols. Nothing is
//! assumed about which values come out, only what holds of every outcome.

use vstd::prelude::*;
use rand::seq::IndexedRandom;
use rand::seq::SliceRandom;

verus! {

/// rand's thread-local random number generator, opaque to verification.
#[verifier::external_type_specification]
#[verifier::external_body]
pub struct ExThreadRng(rand::rngs::ThreadRng);

/// Relies on rand::rng: hands out the thread-local generator, seeded from
/// fresh operating-system entropy.
#[verifier::external_body]
pub(crate) fn new_rng() -> rand::rngs::ThreadRng {
    rand::rng()
}

/// Relies on rand's SliceRandom::shuffle: the slice is reordered in place
/// into a uniformly chosen permutation, so the new contents carry exactly
/// the old elements; which order comes out is not assumed.
#[verifier::external_body]
pub(crate) fn shuffle_indices(v: &mut Vec<usize>, rng: &mut rand::rngs::ThreadRng)
    ensures
        final(v)@.to_multiset() == old(v)@.to_multiset(),
{
    v.shuffle(rng);
}

/// Relies on rand's IndexedRandom::choose: on a non-empty slice it returns
/// Some uniformly sampled element of the slice; which one is not assumed.
#[verifier::external_body]
pub(crate) fn choose_of_three(a: u8, b: u8, c: u8, rng: &mut rand::rngs::ThreadRng) -> (r: u8)
    ensures
        r == a || r == b || r == c,
{
    *[a, b, c].choose(rng).unwrap()
}

} // verus!
