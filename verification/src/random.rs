//! Random draws, as far as the puzzles need them.
//!
//! The generator is the thread-local one of the `rand` crate. Of a draw only
//! what holds of every outcome is claimed.

use rand::rngs::ThreadRng;
use rand::seq::SliceRandom;
use rand::Rng;
use vstd::prelude::*;

verus! {

/// `rand::rngs::ThreadRng`: a handle to the thread-local generator.
#[verifier::external_type_specification]
#[verifier::external_body]
pub struct ExThreadRng(ThreadRng);

/// `rand::thread_rng` hands out the handle to the thread-local generator.
/// Nothing is claimed of the handle.
pub assume_specification[ rand::thread_rng ]() -> (rng: ThreadRng);

/// `SliceRandom::shuffle` on the nine tiles of a board: the slice is
/// rearranged in place by exchanges, so the tiles afterwards are the tiles
/// before in some order.
#[verifier::external_body]
pub(crate) fn shuffle_tiles(tiles: &mut [u8; 9], rng: &mut ThreadRng)
    ensures
        final(tiles)@.to_multiset() == old(tiles)@.to_multiset(),
{
    tiles.shuffle(rng);
}

/// `Rng::gen_range` on an inclusive range of indices: the draw lies in the
/// range. An empty range, on which the call panics, is excluded.
#[verifier::external_body]
pub(crate) fn draw_between(rng: &mut ThreadRng, low: usize, high: usize) -> (drawn: usize)
    requires
        low <= high,
    ensures
        low <= drawn <= high,
{
    rng.gen_range(low..=high)
}

/// `Rng::gen_ratio`: a coin that comes up `true` with the given odds. Odds of
/// zero always give `false`, odds of one always `true`. A zero denominator or
/// odds above one, on which the call panics, are excluded.
#[verifier::external_body]
pub(crate) fn draw_chance(rng: &mut ThreadRng, numerator: u32, denominator: u32) -> (hit: bool)
    requires
        denominator > 0,
        numerator <= denominator,
    ensures
        numerator == 0 ==> !hit,
        numerator == denominator ==> hit,
{
    rng.gen_ratio(numerator, denominator)
}

} // verus!
