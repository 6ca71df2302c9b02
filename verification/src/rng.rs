//! Seeded pseudo-random source: a thin verified facade over rand's `StdRng`.
//!
//! `StdRng` is a deterministic pseudo-random generator: rand documents that a
//! fixed seed yields the same output sequence on every run, host and
//! architecture.  The generator's state is opaque to the verifier, so it is
//! modelled abstractly: `stdrng_state` names the state an `StdRng` value is
//! in, `rng_seed_state` names the state right after seeding, and
//! `rng_next_u32` / `rng_next_index` name the deterministic step a bounded
//! draw performs on that state.  Every draw the library makes goes through the
//! wrappers below, so the whole generation pipeline is a function of the seed.
use vstd::prelude::*;

verus! {

/// Abstract state a `StdRng` value is in; draws are functions of this state.
pub uninterp spec fn stdrng_state(rng: rand::rngs::StdRng) -> int;

/// The abstract state of a `StdRng` freshly seeded from `seed`.
pub uninterp spec fn rng_seed_state(seed: u64) -> int;

/// The successor state and the value of one uniform `u32` draw from `[lo, hi)`.
pub uninterp spec fn rng_next_u32(state: int, lo: u32, hi: u32) -> (int, u32);

/// The successor state and the value of one uniform `usize` draw from `[lo, hi)`.
pub uninterp spec fn rng_next_index(state: int, lo: usize, hi: usize) -> (int, usize);

#[verifier::external_type_specification]
#[verifier::external_body]
pub struct ExStdRng(rand::rngs::StdRng);

/// Relies on rand's `SeedableRng::seed_from_u64` for `StdRng`: rand documents
/// that, for a fixed seed, the same generator state is produced on every run,
/// library version and architecture, and that seeding never panics.
#[verifier::external_body]
fn stdrng_from_seed(seed: u64) -> (r: rand::rngs::StdRng)
    ensures
        stdrng_state(r) == rng_seed_state(seed),
{
    <rand::rngs::StdRng as rand::SeedableRng>::seed_from_u64(seed)
}

/// Relies on rand's `Rng::gen_range` at type `u32`: a deterministic function
/// of the generator state and the bounds, it panics only on an empty range and
/// returns a value uniformly drawn from `[lo, hi)`.
#[verifier::external_body]
pub(crate) fn stdrng_gen_u32(rng: &mut rand::rngs::StdRng, lo: u32, hi: u32) -> (r: u32)
    requires
        lo < hi,
    ensures
        (stdrng_state(*final(rng)), r) == rng_next_u32(stdrng_state(*old(rng)), lo, hi),
        lo <= r < hi,
{
    rand::Rng::gen_range(rng, lo..hi)
}

/// Relies on rand's `Rng::gen_range` at type `usize`: a deterministic function
/// of the generator state and the bounds, it panics only on an empty range and
/// returns a value uniformly drawn from `[lo, hi)`.
#[verifier::external_body]
pub(crate) fn stdrng_gen_index(rng: &mut rand::rngs::StdRng, lo: usize, hi: usize) -> (r: usize)
    requires
        lo < hi,
    ensures
        (stdrng_state(*final(rng)), r) == rng_next_index(stdrng_state(*old(rng)), lo, hi),
        lo <= r < hi,
{
    rand::Rng::gen_range(rng, lo..hi)
}

/// A fresh deterministic random source for the given seed.
pub fn seeded_rng(seed: u64) -> (r: rand::rngs::StdRng)
    ensures
        stdrng_state(r) == rng_seed_state(seed),
{
    stdrng_from_seed(seed)
}

/// One count draw as the generator performs it: a uniform draw from
/// `[lo, hi)` where the range is non-empty, and the constant `0` (with the
/// state untouched) where it is empty.
pub open spec fn spec_draw_count(state: int, lo: u32, hi: u32) -> (int, u32) {
    if lo < hi {
        rng_next_u32(state, lo, hi)
    } else {
        (state, 0)
    }
}

/// Draw how many items to generate from `[lo, hi)`; an empty range yields zero
/// items rather than failing.
pub fn draw_count(rng: &mut rand::rngs::StdRng, lo: u32, hi: u32) -> (r: u32)
    ensures
        (stdrng_state(*final(rng)), r) == spec_draw_count(stdrng_state(*old(rng)), lo, hi),
        lo < hi ==> lo <= r < hi,
        lo >= hi ==> r == 0,
{
    if lo < hi {
        stdrng_gen_u32(rng, lo, hi)
    } else {
        0
    }
}

/// One distance draw: uniform from `[lo, hi)` where the range is non-empty,
/// and the constant `lo` where it is empty.
pub open spec fn spec_draw_distance(state: int, lo: u32, hi: u32) -> (int, u32) {
    if lo < hi {
        rng_next_u32(state, lo, hi)
    } else {
        (state, lo)
    }
}

/// Draw an edge distance from `[lo, hi)`; a degenerate range yields `lo`.
pub fn draw_distance(rng: &mut rand::rngs::StdRng, lo: u32, hi: u32) -> (r: u32)
    ensures
        (stdrng_state(*final(rng)), r) == spec_draw_distance(stdrng_state(*old(rng)), lo, hi),
        lo < hi ==> lo <= r < hi,
        lo >= hi ==> r == lo,
{
    if lo < hi {
        stdrng_gen_u32(rng, lo, hi)
    } else {
        lo
    }
}

} // verus!
