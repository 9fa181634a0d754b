//! The random number generator of the game and the draws taken from it.

use rand::distr::weighted::WeightedIndex;
use rand::distr::Distribution;
use rand::rngs::SmallRng;
use rand::seq::SliceRandom;
use rand::{RngExt, SeedableRng};
use vstd::prelude::*;

verus! {

/// The generator type used for all chance events of a game.
#[verifier::external_type_specification]
#[verifier::external_body]
pub struct ExSmallRng(SmallRng);

/// `Clone::clone` of `SmallRng`, which is derived: the copy holds the same generator
/// state.
pub assume_specification[ <SmallRng as Clone>::clone ](r: &SmallRng) -> (c: SmallRng)
    ensures
        c == *r,
;

/// Creates a generator from a seed (`SeedableRng::seed_from_u64` of `SmallRng`).
/// Nothing is claimed about the generator state.
#[verifier::external_body]
pub(crate) fn seeded_rng(seed: u64) -> SmallRng {
    SmallRng::seed_from_u64(seed)
}

/// Puts the items of `a` in a random order (`SliceRandom::shuffle`): the array holds the
/// same items afterwards, each as often as before.
#[verifier::external_body]
pub(crate) fn shuffle_array<T, const N: usize>(rng: &mut SmallRng, a: &mut [T; N])
    ensures
        final(a)@.to_multiset() == old(a)@.to_multiset(),
{
    a.shuffle(rng);
}

/// A uniformly drawn number below `n` (`RngExt::random_range(0..n)` on `u8`): the
/// documentation promises a value in the range and panics on an empty range.
#[verifier::external_body]
pub(crate) fn random_below_u8(rng: &mut SmallRng, n: u8) -> (r: u8)
    requires
        n > 0,
    ensures
        r < n,
{
    rng.random_range(0..n)
}

/// A uniformly drawn number below `n` (`RngExt::random_range(0..n)` on `u32`): the
/// documentation promises a value in the range and panics on an empty range.
#[verifier::external_body]
pub(crate) fn random_below_u32(rng: &mut SmallRng, n: u32) -> (r: u32)
    requires
        n > 0,
    ensures
        r < n,
{
    rng.random_range(0..n)
}

/// A uniformly drawn number below `n` (`RngExt::random_range(0..n)` on `usize`): the
/// documentation promises a value in the range and panics on an empty range.
#[verifier::external_body]
pub(crate) fn random_below_usize(rng: &mut SmallRng, n: usize) -> (r: usize)
    requires
        n > 0,
    ensures
        r < n,
{
    rng.random_range(0..n)
}

/// One die (`RngExt::random_range(1..=6)` on `usize`): a value from 1 to 6.
#[verifier::external_body]
pub(crate) fn roll_die(rng: &mut SmallRng) -> (r: usize)
    ensures
        1 <= r <= 6,
{
    rng.random_range(1..=6usize)
}

/// One die (`RngExt::random_range(1..=6)` on `i32`): a value from 1 to 6.
#[verifier::external_body]
pub(crate) fn roll_die_i32(rng: &mut SmallRng) -> (r: i32)
    ensures
        1 <= r <= 6,
{
    rng.random_range(1..=6i32)
}

/// An index drawn with probability proportional to its weight
/// (`WeightedIndex::new(weights)` then `Distribution::sample`): construction succeeds
/// when the weights do not sum to zero and their `u8` sum does not overflow, and the
/// sampled index is one with a positive weight.
#[verifier::external_body]
pub(crate) fn weighted_index(rng: &mut SmallRng, weights: [u8; 5]) -> (r: usize)
    requires
        0 < weights@[0] + weights@[1] + weights@[2] + weights@[3] + weights@[4] <= 255,
    ensures
        r < 5,
        weights@[r as int] > 0,
{
    WeightedIndex::new(weights).unwrap().sample(rng)
}

} // verus!
