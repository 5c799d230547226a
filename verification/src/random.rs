//! The random number generator and the random choices that the library makes with it.
use rand::rngs::SmallRng;
use rand::seq::{IteratorRandom, SliceRandom};
use rand::SeedableRng;
use vstd::prelude::*;

verus! {

#[verifier::external_type_specification]
#[verifier::external_body]
pub struct ExSmallRng(SmallRng);

/// Calls `SmallRng::seed_from_u64`. Nothing is claimed of the generator.
#[verifier::external_body]
pub(crate) fn seeded_rng(seed: u64) -> (rng: SmallRng) {
    SmallRng::seed_from_u64(seed)
}

/// Calls `SliceRandom::shuffle`. Trusted: the items are put in a random order, so the
/// same items, each as often as before, are there afterwards.
#[verifier::external_body]
pub(crate) fn shuffle<T>(items: &mut Vec<T>, rng: &mut SmallRng)
    ensures
        final(items)@.to_multiset() == old(items)@.to_multiset(),
{
    items.shuffle(rng);
}

/// Calls `IteratorRandom::choose` on the items. Trusted: one of the items, which one
/// depending on the generator; none only when there are no items.
#[verifier::external_body]
pub(crate) fn choose_one<T: Copy>(items: &Vec<T>, rng: &mut SmallRng) -> (r: Option<T>)
    ensures
        r is None <==> items@.len() == 0,
        r matches Some(x) ==> items@.contains(x),
{
    items.iter().choose(rng).copied()
}

} // verus!
