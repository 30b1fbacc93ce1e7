//! The random source and the few calls into `rand` that the draw needs.

use vstd::prelude::*;
use rand::SeedableRng;
use rand::seq::SliceRandom;
use rand::rngs::StdRng;

verus! {

#[verifier::external_type_specification]
#[verifier::external_body]
pub struct ExStdRng(rand::rngs::StdRng);

/// Relies on `SeedableRng::from_entropy`: a generator seeded by the operating
/// system. Nothing is known of its state.
#[verifier::external_body]
pub(crate) fn entropy_rng() -> (r: StdRng) {
    StdRng::from_entropy()
}

/// Relies on `SliceRandom::shuffle`, which only swaps elements: the result is
/// a permutation of the input.
#[verifier::external_body]
pub(crate) fn shuffle_names(v: &mut Vec<String>, rng: &mut StdRng)
    ensures
        final(v)@.to_multiset() == old(v)@.to_multiset(),
{
    v.shuffle(rng)
}

/// Relies on `SliceRandom::choose`: `None` on an empty slice, otherwise one of
/// its elements.
#[verifier::external_body]
pub(crate) fn pick_one(basket: &Vec<String>, rng: &mut StdRng) -> (r: Option<String>)
    ensures
        r is None <==> basket@.len() == 0,
        r matches Some(s) ==> basket@.contains(s),
{
    basket.choose(rng).cloned()
}

} // verus!
