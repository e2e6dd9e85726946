//! Weighted random choice, made by the `rand` crate.

use rand::distr::weighted::{Error as WeightError, WeightedIndex};
use rand::distr::Distribution;
use rand::rngs::StdRng;
use vstd::prelude::*;

verus! {

/// The random number generator of `rand` used for spawning.
#[verifier::external_type_specification]
#[verifier::external_body]
pub struct ExStdRng(StdRng);

/// A distribution of `rand` over indices, weighted by the weights it was made with: a
/// `WeightedIndex` over `u32` weights, kept in a private field.
#[verifier::external_body]
pub struct WeightedChoice {
    distribution: WeightedIndex<u32>,
}

/// The error of `rand` for weights that cannot make a distribution.
#[verifier::external_type_specification]
#[verifier::external_body]
pub struct ExWeightError(WeightError);

/// The weights that a `WeightedIndex` distribution was made with, in order.
pub uninterp spec fn weighted_choice_weights(choice: WeightedChoice) -> Seq<u32>;

/// The sum of `weights`.
pub open spec fn weight_sum(weights: Seq<u32>) -> int
    decreases weights.len(),
{
    if weights.len() == 0 {
        0
    } else {
        weight_sum(weights.drop_last()) + weights.last()
    }
}

/// `rand::distr::weighted::WeightedIndex::new` on `u32` weights.
///
/// As its source shows, it fails on no weights, on weights whose running sum overflows
/// a `u32` (for weights that cannot be negative: whose sum exceeds `u32::MAX`) and on
/// weights that sum to zero, and otherwise makes the distribution of these weights.
#[verifier::external_body]
pub(crate) fn weighted_index_new(weights: &Vec<u32>) -> (r: Result<WeightedChoice, WeightError>)
    ensures
        r is Ok <==> (weights@.len() > 0 && 0 < weight_sum(weights@) <= u32::MAX),
        r matches Ok(choice) ==> weighted_choice_weights(choice) == weights@,
{
    WeightedIndex::new(weights).map(|distribution| WeightedChoice { distribution })
}

/// `Distribution::sample` of a `WeightedIndex<u32>` with a `StdRng`.
///
/// It returns the index of one of the weights the distribution was made with; as its
/// documentation guarantees, an element with weight zero is never picked. Which index
/// comes back depends on the generator's state, so nothing more is stated.
#[verifier::external_body]
pub(crate) fn weighted_index_sample(choice: &WeightedChoice, rng: &mut StdRng) -> (r: usize)
    ensures
        r < weighted_choice_weights(*choice).len(),
        weighted_choice_weights(*choice)[r as int] > 0,
{
    choice.distribution.sample(rng)
}

} // verus!
