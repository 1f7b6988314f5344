//! Seeded draws.
use rand::rngs::StdRng;
use rand::{Rng, SeedableRng};
use vstd::prelude::*;

verus! {

/// The integer below `bound` that a fresh generator seeded with `seed` draws first.
pub uninterp spec fn first_draw(seed: u64, bound: usize) -> usize;

/// `rand::Rng::random_range` over `0..bound`, on a `StdRng` of `seed_from_u64(seed)`: the draw is
/// below the bound and depends on the seed and the bound alone.
#[verifier::external_body]
pub(crate) fn draw_below(seed: u64, bound: usize) -> (r: usize)
    requires
        0 < bound <= u32::MAX,
    ensures
        r < bound,
        r == first_draw(seed, bound),
{
    StdRng::seed_from_u64(seed).random_range(0..bound)
}

} // verus!
