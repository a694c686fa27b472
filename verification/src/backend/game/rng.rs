//! The random choices of the game, made by the `rand` crate.
use vstd::prelude::*;
use rand::rngs::ThreadRng;
use rand::seq::{IndexedRandom, SliceRandom};
use rand::Rng;

verus! {

#[verifier::external_type_specification]
#[verifier::external_body]
pub struct ExThreadRng(rand::rngs::ThreadRng);

/// `rand::rng()`: a handle to the thread-local generator. Nothing is claimed of it.
#[verifier::external_body]
pub(crate) fn thread_rng() -> ThreadRng {
    rand::rng()
}

/// `SliceRandom::shuffle`: claims only that the vector afterwards holds the same items,
/// each as often as before (a permutation); which permutation is left to chance.
#[verifier::external_body]
pub(crate) fn shuffle_vec<T>(rng: &mut ThreadRng, v: &mut Vec<T>)
    ensures
        final(v)@.len() == old(v)@.len(),
        final(v)@.to_multiset() == old(v)@.to_multiset(),
{
    v.shuffle(rng);
}

/// `Rng::random_range` on `lo..=hi` for `u8`: claims the result lies in the range.
/// The range must not be empty (the call panics on an empty range).
#[verifier::external_body]
pub(crate) fn random_range_u8(rng: &mut ThreadRng, lo: u8, hi: u8) -> (r: u8)
    requires
        lo <= hi,
    ensures
        lo <= r <= hi,
{
    rng.random_range(lo..=hi)
}

/// `Rng::random_ratio`: a coin that shows `true` with chance `numerator / denominator`;
/// claims only that it is always `false` for a zero numerator and always `true` when the
/// numerator equals the denominator (the call panics on a zero denominator or a ratio above one).
#[verifier::external_body]
pub(crate) fn random_ratio(rng: &mut ThreadRng, numerator: u32, denominator: u32) -> (b: bool)
    requires
        0 < denominator,
        numerator <= denominator,
    ensures
        numerator == 0 ==> !b,
        numerator == denominator ==> b,
{
    rng.random_ratio(numerator, denominator)
}

/// `IndexedRandom::choose`: `None` exactly for an empty vector, otherwise one of its items.
#[verifier::external_body]
pub(crate) fn choose_copy<T: Copy>(rng: &mut ThreadRng, v: &Vec<T>) -> (r: Option<T>)
    ensures
        r is None <==> v@.len() == 0,
        r matches Some(x) ==> v@.contains(x),
{
    v.as_slice().choose(rng).copied()
}

} // verus!
