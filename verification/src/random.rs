//! The random stream. It is the xoshiro256** generator of `rand_xoshiro`, seeded from one
//! number through SplitMix64, and `rand` draws from it. Nothing here is proved: each
//! function hands one call on to those crates, and its contract says what is believed of
//! the call.
//!
//! The stream is deterministic. What a draw returns, and the state it leaves, depend on
//! the state before and on the bounds alone, so each has a name here, and the contracts
//! elsewhere say exactly which draws a text was made of. Which text a seed makes is part
//! of what this library promises, so the two crates are held to the versions whose draws
//! these are.
use vstd::prelude::*;
use rand::distributions::Uniform;
use rand::{Rng, SeedableRng};
use rand_xoshiro::Xoshiro256StarStar;

verus! {

/// The generator of `rand_xoshiro`, made known to the verifier as a type whose inside it
/// does not see.
#[verifier::external_type_specification]
#[verifier::external_body]
pub struct ExXoshiro256StarStar(Xoshiro256StarStar);

/// The words of state that the generator holds. Every draw reads them and leaves new ones.
pub uninterp spec fn rng_state(rng: Xoshiro256StarStar) -> Seq<u64>;

/// The state that `Xoshiro256StarStar::seed_from_u64` makes of a seed.
pub uninterp spec fn seeded_state(seed: u64) -> Seq<u64>;

/// What `Rng::gen_range` on `u32` draws from a state, and the state it leaves.
pub uninterp spec fn uniform_u32(state: Seq<u64>, low: u32, high: u32) -> (u32, Seq<u64>);

/// What `Rng::gen_range` on `u64` draws from a state, and the state it leaves.
pub uninterp spec fn uniform_u64(state: Seq<u64>, low: u64, high: u64) -> (u64, Seq<u64>);

/// What a `Uniform::new_inclusive` on `u64` draws from a state, and the state it leaves.
pub uninterp spec fn uniform_u64_inclusive(state: Seq<u64>, low: u64, high: u64) -> (
    u64,
    Seq<u64>,
);

/// What `Rng::gen_ratio` with one chance in two draws from a state, and the state it
/// leaves.
pub uninterp spec fn even_chance(state: Seq<u64>) -> (bool, Seq<u64>);

/// `Xoshiro256StarStar::seed_from_u64`: a generator whose state depends on the seed alone.
#[verifier::external_body]
pub(crate) fn seed_rng(seed: u64) -> (rng: Xoshiro256StarStar)
    ensures
        rng_state(rng) == seeded_state(seed),
{
    Xoshiro256StarStar::seed_from_u64(seed)
}

/// `Rng::gen_range` on `u32`: a number from `low` up to, not including, `high`. It panics
/// where `low >= high`, so that is required not to be. The number and the state left are
/// those that the state before and the bounds determine.
#[verifier::external_body]
pub(crate) fn draw_u32(rng: &mut Xoshiro256StarStar, low: u32, high: u32) -> (r: u32)
    requires
        low < high,
    ensures
        low <= r < high,
        (r, rng_state(*final(rng))) == uniform_u32(rng_state(*old(rng)), low, high),
{
    rng.gen_range(low, high)
}

/// `Rng::gen_range` on `u64`: as `draw_u32`, on 64 bits.
#[verifier::external_body]
pub(crate) fn draw_u64(rng: &mut Xoshiro256StarStar, low: u64, high: u64) -> (r: u64)
    requires
        low < high,
    ensures
        low <= r < high,
        (r, rng_state(*final(rng))) == uniform_u64(rng_state(*old(rng)), low, high),
{
    rng.gen_range(low, high)
}

/// `Rng::sample` of `Uniform::new_inclusive` on `u64`: a number from `low` up to and
/// including `high`. The constructor panics where `low > high`, so that is required not to
/// be. The number and the state left are those that the state before and the bounds
/// determine.
#[verifier::external_body]
pub(crate) fn draw_u64_inclusive(rng: &mut Xoshiro256StarStar, low: u64, high: u64) -> (r: u64)
    requires
        low <= high,
    ensures
        low <= r <= high,
        (r, rng_state(*final(rng))) == uniform_u64_inclusive(rng_state(*old(rng)), low, high),
{
    rng.sample(Uniform::new_inclusive(low, high))
}

/// `Rng::gen_ratio` with one chance in two: true or false, each as likely as the other. It
/// panics on a ratio above one or with a zero below the line, which this one is not. Which
/// of the two comes, and the state left, are those that the state before determines.
#[verifier::external_body]
pub(crate) fn draw_even_chance(rng: &mut Xoshiro256StarStar) -> (r: bool)
    ensures
        (r, rng_state(*final(rng))) == even_chance(rng_state(*old(rng))),
{
    rng.gen_ratio(1, 2)
}

} // verus!
