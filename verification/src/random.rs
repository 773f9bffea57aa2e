//! The generator that shuffles decks and drives bots.

use rand::rngs::SmallRng;
use vstd::prelude::*;

verus! {

/// The small, fast generator of the `rand` crate. Its state is opaque here.
#[verifier::external_type_specification]
#[verifier::external_body]
pub struct ExSmallRng(rand::rngs::SmallRng);

/// The generator that `SmallRng::seed_from_u64` makes from `seed` on a machine
/// whose pointers have `pointer_bits` bits. The width selects the algorithm.
pub uninterp spec fn small_rng_seeded(seed: u64, pointer_bits: u32) -> SmallRng;

/// What `gen_range(0..=high)` draws from `rng`, and the generator it leaves.
pub uninterp spec fn small_rng_index(rng: SmallRng, high: usize) -> (usize, SmallRng);

/// What `next_u32` draws from `rng`, and the generator it leaves.
pub uninterp spec fn small_rng_u32(rng: SmallRng) -> (u32, SmallRng);

/// What `next_u64` draws from `rng`, and the generator it leaves.
pub uninterp spec fn small_rng_u64(rng: SmallRng) -> (u64, SmallRng);

/// The generator that `seed` makes on this machine.
pub open spec fn seeded(seed: u64) -> SmallRng {
    small_rng_seeded(seed, usize::BITS)
}

/// Calls `rand::SeedableRng::seed_from_u64` for `SmallRng`. The generator is a
/// function of the seed and of the pointer width alone.
#[verifier::external_body]
pub(crate) fn seeded_rng(seed: u64) -> (rng: SmallRng)
    ensures
        rng == small_rng_seeded(seed, usize::BITS),
{
    rand::SeedableRng::seed_from_u64(seed)
}

/// Calls `rand::SeedableRng::from_entropy` for `SmallRng`. Nothing is claimed of
/// the generator: the operating system's randomness makes it. On a machine that
/// has no randomness to give, the call panics.
#[verifier::external_body]
pub(crate) fn entropy_rng() -> (rng: SmallRng) {
    rand::SeedableRng::from_entropy()
}

/// Calls `rand::Rng::gen_range` on `0..=high`. The index drawn lies in that
/// range; it and the generator left behind are functions of the generator before
/// the call and of `high`.
#[verifier::external_body]
pub(crate) fn draw_index(rng: &mut SmallRng, high: usize) -> (j: usize)
    ensures
        j <= high,
        (j, *final(rng)) == small_rng_index(*old(rng), high),
{
    rand::Rng::gen_range(rng, 0..=high)
}

/// Calls `rand::RngCore::next_u32`. The number drawn and the generator left behind
/// are functions of the generator before the call.
#[verifier::external_body]
pub(crate) fn draw_u32(rng: &mut SmallRng) -> (n: u32)
    ensures
        (n, *final(rng)) == small_rng_u32(*old(rng)),
{
    rand::RngCore::next_u32(rng)
}

/// Calls `rand::RngCore::next_u64`. The number drawn and the generator left behind
/// are functions of the generator before the call.
#[verifier::external_body]
pub(crate) fn draw_u64(rng: &mut SmallRng) -> (n: u64)
    ensures
        (n, *final(rng)) == small_rng_u64(*old(rng)),
{
    rand::RngCore::next_u64(rng)
}

} // verus!
