//! The deterministic random source of a game. Every draw a game ever makes
//! is one element of the output stream of a xoroshiro128** generator seeded
//! from the game's seed, so a whole game is a pure function of its seed.
use rand_xoshiro::rand_core::Rng;
use rand_xoshiro::rand_core::SeedableRng;
use vstd::prelude::*;

verus! {

/// The n-th 64-bit output of a xoroshiro128** generator seeded from `seed`.
pub uninterp spec fn xoshiro_stream(seed: u64, n: u64) -> u64;

/// Relies on rand_xoshiro::Xoroshiro128StarStar: `seed_from_u64` builds the
/// generator from the seed alone (via SplitMix64) and `next_u64` steps it by
/// a fixed permutation of its state, so the n-th output of the stream is a
/// function of (seed, n) and of nothing else.
#[verifier::external_body]
fn xoshiro_nth(seed: u64, n: u64) -> (r: u64)
    ensures
        r == xoshiro_stream(seed, n),
{
    let mut rng = rand_xoshiro::Xoroshiro128StarStar::seed_from_u64(seed);
    for _ in 0..n {
        rng.next_u64();
    }
    rng.next_u64()
}

/// The n-th draw of the seeded stream, reduced below `m`.
pub(crate) fn draw_below(seed: u64, n: u64, m: u64) -> (r: u64)
    requires
        m > 0,
    ensures
        r == xoshiro_stream(seed, n) % m,
        r < m,
{
    xoshiro_nth(seed, n) % m
}

} // verus!
