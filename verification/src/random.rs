//! The randomness source behind `$rnd` directives and weighted include
//! selection: a seedable generator and a weighted index draw, both taken
//! from the `rand` crate through trusted declarations.

use rand::distributions::Distribution;
use vstd::prelude::*;

verus! {

/// The standard seedable generator of the `rand` crate, declared so
/// that values of it can be passed through the library; its state is
/// opaque here.
#[verifier::external_type_specification]
#[verifier::external_body]
pub struct ExStdRng(rand::rngs::StdRng);

/// The error the `rand` crate's weighted-index constructor returns,
/// declared so that the draw below can hand it back; opaque here.
#[verifier::external_type_specification]
#[verifier::external_body]
pub struct ExWeightedError(rand::distributions::weighted::WeightedError);

/// Relies on `Rng::gen_range`: a value drawn uniformly from
/// `[low, high)`. The call panics when `low >= high`, so that case is
/// excluded here.
#[verifier::external_body]
pub(crate) fn gen_range_u64(rng: &mut rand::rngs::StdRng, low: u64, high: u64) -> (r: u64)
    requires
        low < high,
    ensures
        low <= r < high,
{
    <rand::rngs::StdRng as rand::Rng>::gen_range(rng, low, high)
}

pub open spec fn sum_prefix(ws: Seq<i64>, p: int) -> int
    decreases p,
{
    if p <= 0 {
        0
    } else if p > ws.len() {
        sum_prefix(ws, ws.len() as int)
    } else {
        sum_prefix(ws, p - 1) + ws[p - 1]
    }
}

/// Every partial sum the weighted-index constructor computes stays
/// within `i64`.
pub open spec fn prefix_sums_fit(ws: Seq<i64>) -> bool {
    forall|p: int|
        0 <= p <= ws.len() && (forall|j: int| 0 <= j < p ==> ws[j] >= 0) ==> sum_prefix(
            ws,
            p,
        ) <= i64::MAX
}

/// Whether `WeightedIndex::new` accepts the weights: at least one entry,
/// none negative, and a positive total.
pub open spec fn weights_valid(ws: Seq<i64>) -> bool {
    &&& ws.len() > 0
    &&& forall|k: int| 0 <= k < ws.len() ==> ws[k] >= 0
    &&& sum_prefix(ws, ws.len() as int) > 0
}

/// Relies on `rand::distributions::WeightedIndex::new` and
/// `Distribution::sample`: builds the distribution over the given
/// weights and draws one index from it. `new` rejects an empty list, a
/// negative weight, and an all-zero total; a drawn index always lies in
/// range and names an entry of positive weight, because an entry of
/// weight zero spans an empty slice of the cumulative scale. The
/// constructor sums the weights with plain `i64` addition, so the
/// partial sums are required to fit.
#[verifier::external_body]
pub(crate) fn sample_weighted(weights: &Vec<i64>, rng: &mut rand::rngs::StdRng) -> (r: Result<
    usize,
    rand::distributions::weighted::WeightedError,
>)
    requires
        prefix_sums_fit(weights@),
    ensures
        match r {
            Ok(i) => weights_valid(weights@) && i < weights@.len() && weights@[i as int] > 0,
            Err(_) => !weights_valid(weights@),
        },
{
    let index = rand::distributions::WeightedIndex::new(weights.iter())?;
    Ok(index.sample(rng))
}

} // verus!
