//! Random draws.

use rand::rngs::SmallRng;
use rand::{Rng, RngExt, SeedableRng};
use vstd::prelude::*;

verus! {

/// A small random number generator.
#[verifier::external_type_specification]
#[verifier::external_body]
pub struct ExSmallRng(SmallRng);

/// Calls `SmallRng::seed_from_u64`. Nothing is said of what the generator will
/// draw.
#[verifier::external_body]
pub(crate) fn seeded(seed: u64) -> (r: SmallRng) {
    SmallRng::seed_from_u64(seed)
}

/// Calls `Rng::next_u32`. Nothing is said of the number drawn.
#[verifier::external_body]
pub(crate) fn draw_u32(rng: &mut SmallRng) -> (r: u32) {
    rng.next_u32()
}

/// Calls `RngExt::random_range` on `lo..hi`: the number drawn lies in the range. An
/// empty range, on which it panics, is left out.
#[verifier::external_body]
pub(crate) fn draw_below(rng: &mut SmallRng, lo: usize, hi: usize) -> (r: usize)
    requires
        lo < hi,
    ensures
        lo <= r < hi,
{
    rng.random_range(lo..hi)
}

} // verus!
