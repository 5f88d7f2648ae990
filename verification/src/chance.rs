//! Random draws, from the `rand` crate's thread-local generator. What each
//! draw returns is left to chance; its contract states only what holds of
//! every outcome.

use vstd::prelude::*;

use rand::seq::IndexedRandom;
use rand::RngExt;

verus! {

/// A uniform draw from `lo..=hi` (`RngExt::random_range`, which panics on
/// an empty range and otherwise returns a value of the range).
#[verifier::external_body]
pub(crate) fn draw_between(lo: usize, hi: usize) -> (r: usize)
    requires
        lo <= hi,
    ensures
        lo <= r <= hi,
{
    rand::rng().random_range(lo..=hi)
}

/// A draw that is true with probability `numerator / denominator`
/// (`RngExt::random_ratio`, which panics unless `0 < denominator` and
/// `numerator <= denominator`; it is always false for a zero numerator and
/// always true when the two are equal).
#[verifier::external_body]
pub(crate) fn draw_ratio(numerator: u32, denominator: u32) -> (r: bool)
    requires
        0 < denominator,
        numerator <= denominator,
    ensures
        numerator == 0 ==> !r,
        numerator == denominator ==> r,
{
    rand::rng().random_ratio(numerator, denominator)
}

/// A uniformly chosen element of a slice (`IndexedRandom::choose`, which
/// gives `None` exactly for an empty slice).
#[verifier::external_body]
pub(crate) fn choose_id(ids: &[i64]) -> (r: Option<i64>)
    ensures
        r is Some <==> ids@.len() > 0,
        r matches Some(x) ==> ids@.contains(x),
{
    ids.choose(&mut rand::rng()).copied()
}

/// A uniform sample without replacement of `amount` entries of a slice, or
/// of all of them when it has fewer (`IndexedRandom::sample`, formerly
/// `choose_multiple`: distinct positions, in random order).
#[verifier::external_body]
pub(crate) fn sample_ids(ids: &[i64], amount: usize) -> (r: Vec<i64>)
    ensures
        r@.len() == if amount < ids@.len() {
            amount as int
        } else {
            ids@.len() as int
        },
        forall|x: i64| r@.to_multiset().count(x) <= ids@.to_multiset().count(x),
{
    ids.sample(&mut rand::rng(), amount).copied().collect()
}

} // verus!
