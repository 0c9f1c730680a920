//! The random number generator of the game, and the random choices that the
//! game makes with it.
//!
//! The generator is `rand_xoshiro`'s `Xoshiro256PlusPlus`; its state is
//! opaque here. Each trusted item below says only what holds of every outcome
//! of the call it makes.
use rand::seq::{IndexedRandom, IteratorRandom, SliceRandom};
use rand::{Rng, SeedableRng};
use vstd::prelude::*;

use crate::board_state::Card;

verus! {

#[verifier::external_type_specification]
#[verifier::external_body]
pub struct ExXoshiro256PlusPlus(rand_xoshiro::Xoshiro256PlusPlus);

/// The generator that the game uses.
pub type RngType = rand_xoshiro::Xoshiro256PlusPlus;

/// The generator that `Xoshiro256PlusPlus::seed_from_u64` builds from `seed`.
pub uninterp spec fn generator_for_seed(seed: u64) -> RngType;

/// What `Xoshiro256PlusPlus::jump` makes of the generator `rng`.
pub uninterp spec fn jumped(rng: RngType) -> RngType;

/// Trusted: `Xoshiro256PlusPlus::seed_from_u64` (rand_core's `SeedableRng`),
/// which fills the generator's state from the seed alone (by SplitMix64). The
/// contract names the result and claims only that it depends on the seed
/// alone, so the same seed gives the same generator.
#[verifier::external_body]
fn seeded_rng(seed: u64) -> (rng: RngType)
    ensures
        rng == generator_for_seed(seed),
{
    RngType::seed_from_u64(seed)
}

/// Trusted: `Clone::clone` of `Xoshiro256PlusPlus`, which is derived: the
/// copy holds the same state as the generator, so it is the same value.
#[verifier::external_body]
fn clone_rng(rng: &RngType) -> (copy: RngType)
    ensures
        copy == *rng,
{
    rng.clone()
}

/// Trusted: `Xoshiro256PlusPlus::jump`, which advances the generator by 2^128
/// steps, a fixed function of its state. The contract names the new state and
/// claims only that it depends on the old state alone.
#[verifier::external_body]
fn jump_rng(rng: &mut RngType)
    ensures
        *final(rng) == jumped(*old(rng)),
{
    rng.jump()
}

/// Trusted: `rand::rng().random::<u64>()`, a `u64` from the thread-local
/// generator seeded from the operating system. Any `u64` may come back.
#[verifier::external_body]
pub fn seed_from_entropy() -> u64 {
    rand::rng().random()
}

/// Trusted: `SliceRandom::shuffle` on the cards. The cards come back in some
/// order: the same cards, as many times each.
#[verifier::external_body]
pub(crate) fn shuffle_cards(cards: &mut Vec<Card>, rng: &mut RngType)
    ensures
        final(cards)@.len() == old(cards)@.len(),
        final(cards)@.to_multiset() == old(cards)@.to_multiset(),
{
    cards.shuffle(rng)
}

/// Trusted: `IndexedRandom::choose` on a slice of indices. It gives `None`
/// exactly when the slice is empty, and otherwise one of its elements.
#[verifier::external_body]
pub(crate) fn choose_from(items: &[usize], rng: &mut RngType) -> (chosen: Option<usize>)
    ensures
        chosen is None <==> items@.len() == 0,
        chosen is Some ==> items@.contains(chosen.unwrap()),
{
    items.choose(rng).copied()
}

/// Trusted: `IteratorRandom::choose` on the iterator of three cards. The
/// iterator reports its exact length, so one of the three cards comes back.
#[verifier::external_body]
pub(crate) fn choose_card(cards: &[Card; 3], rng: &mut RngType) -> (chosen: Option<Card>)
    ensures
        chosen is Some,
        cards@.contains(chosen.unwrap()),
{
    cards.iter().choose(rng).copied()
}

/// Trusted: `Rng::random_ratio`, `true` with probability
/// `numerator / denominator`. Its documentation promises `false` for a
/// numerator of 0 and `true` when numerator and denominator are equal, and a
/// panic when the denominator is 0 or smaller than the numerator.
#[verifier::external_body]
pub(crate) fn random_ratio(rng: &mut RngType, numerator: u32, denominator: u32) -> (hit: bool)
    requires
        0 < denominator,
        numerator <= denominator,
    ensures
        numerator == 0 ==> !hit,
        numerator == denominator ==> hit,
{
    rng.random_ratio(numerator, denominator)
}

/// Trusted: `Rng::random_range(0..=max)` on `usize`, a value in `0 ..= max`.
#[verifier::external_body]
pub(crate) fn random_at_most(rng: &mut RngType, max: usize) -> (value: usize)
    ensures
        value <= max,
{
    rng.random_range(0..=max)
}

/// The generator for `seed`: the same seed always gives the same generator,
/// so a run can be repeated from its seed.
pub fn rng_from_seed(seed: u64) -> (rng: RngType)
    ensures
        rng == generator_for_seed(seed),
{
    seeded_rng(seed)
}

/// The generator that tests use: the one for seed 0.
pub fn test_rng() -> (rng: RngType)
    ensures
        rng == generator_for_seed(0),
{
    rng_from_seed(0)
}

/// The generator `rng` after `n` jumps.
pub open spec fn jumped_times(rng: RngType, n: nat) -> RngType
    decreases n,
{
    if n == 0 {
        rng
    } else {
        jumped(jumped_times(rng, (n - 1) as nat))
    }
}

/// The generator of worker `worker_index`: a copy of `master` that jumped
/// `worker_index` times, so that the workers draw from disjoint stretches of
/// the master's sequence. Worker 0 gets an exact copy of `master`, and a
/// worker index always gives the same generator.
pub fn derive_worker_rng(master: &RngType, worker_index: usize) -> (worker: RngType)
    ensures
        worker == jumped_times(*master, worker_index as nat),
{
    let mut worker = clone_rng(master);
    let mut jumped: usize = 0;
    while jumped < worker_index
        invariant
            jumped <= worker_index,
            worker == jumped_times(*master, jumped as nat),
        decreases worker_index - jumped,
    {
        jump_rng(&mut worker);
        jumped = jumped + 1;
    }
    worker
}

} // verus!
