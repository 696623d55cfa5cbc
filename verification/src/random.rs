//! The calls into the random number generator.
//!
//! Everything here is believed, not proved: each contract states what the
//! source of the called function shows of every outcome.

use vstd::prelude::*;
use rand::rngs::StdRng;
use rand::seq::SliceRandom;
use rand::{Rng, SeedableRng};

verus! {

/// `rand::rngs::StdRng`, the generator that the draws are made with,
/// declared without its contents.
#[verifier::external_type_specification]
#[verifier::external_body]
pub struct ExStdRng(rand::rngs::StdRng);

/// Calls `rand::SeedableRng::from_entropy` for a generator that is seeded
/// by the system; the call panics where the system has no entropy to give.
/// Nothing is known of what the generator will draw.
#[verifier::external_body]
pub(crate) fn entropy_rng() -> (rng: StdRng) {
    StdRng::from_entropy()
}

/// Calls `rand::seq::SliceRandom::choose` on the slice of `cells` with the
/// given generator. An empty slice gives `None`; otherwise the result is
/// the element at some index of the slice.
#[verifier::external_body]
pub(crate) fn choose_cell(cells: &Vec<(i32, i32)>, rng: &mut StdRng) -> (r: Option<(i32, i32)>)
    ensures
        cells@.len() == 0 ==> r.is_none(),
        cells@.len() > 0 ==> r.is_some() && cells@.contains(r.unwrap()),
{
    cells.choose(rng).copied()
}

/// The sum of the weights in `weights`.
pub open spec fn weight_sum(weights: Seq<u32>) -> int
    decreases weights.len(),
{
    if weights.len() == 0 {
        0
    } else {
        weight_sum(weights.drop_last()) + weights.last()
    }
}

/// Calls `rand::seq::SliceRandom::choose_weighted` with the given
/// generator on the weights paired with their indices, and returns the index
/// of the chosen entry. The call fails only on an empty slice or a total of
/// zero, and its running total must not overflow; `requires` leaves those
/// inputs out. The chosen index is that of an entry whose weight is positive.
#[verifier::external_body]
pub(crate) fn choose_weighted_index(weights: &Vec<u32>, rng: &mut StdRng) -> (r: Option<usize>)
    requires
        weights@.len() > 0,
        0 < weight_sum(weights@) <= u32::MAX,
    ensures
        r.is_some(),
        r.unwrap() < weights@.len(),
        weights@[r.unwrap() as int] > 0,
{
    let entries: Vec<(usize, u32)> = weights.iter().copied().enumerate().collect();
    entries.choose_weighted(rng, |e| e.1).ok().map(|e| e.0)
}

/// Calls `rand::seq::SliceRandom::shuffle` on the slice of `points` with the
/// given generator. The call only swaps elements, so the vector holds
/// afterwards what it held before, each element as often.
#[verifier::external_body]
pub(crate) fn shuffle_points(points: &mut Vec<(i32, i32)>, rng: &mut StdRng)
    ensures
        final(points)@.to_multiset() == old(points)@.to_multiset(),
{
    points.shuffle(rng);
}

/// Calls `rand::Rng::gen_range` with the half-open range from `lo` to `hi`,
/// which draws from that range. It panics on an empty range, so `lo` must
/// lie below `hi`.
#[verifier::external_body]
pub(crate) fn random_in_range(lo: i32, hi: i32, rng: &mut StdRng) -> (r: i32)
    requires
        lo < hi,
    ensures
        lo <= r < hi,
{
    rng.gen_range(lo..hi)
}

} // verus!
