//! The random generator and the draws the engine makes from it.
//!
//! The generator is the `rand` crate's `StdRng`. Nothing is proved about the
//! draws; each function below states only what the crate documents to hold of
//! every outcome.

use vstd::prelude::*;
use rand::rngs::StdRng;
use rand::Rng;
use rand::SeedableRng;
use rand::distributions::WeightedIndex;
use rand::distributions::Distribution;
use rand::seq::IteratorRandom;
use crate::params::{Probability, samplable};
use super::common::Number;

verus! {

/// `rand::rngs::StdRng`, carried through the engine as an opaque value.
#[verifier::external_type_specification]
#[verifier::external_body]
pub struct ExStdRng(StdRng);

/// `SeedableRng::seed_from_u64` for `StdRng`: a generator whose stream is
/// fixed by the seed. Nothing is claimed about the stream.
#[verifier::external_body]
pub(crate) fn seeded(seed: u64) -> StdRng {
    StdRng::seed_from_u64(seed)
}

/// `Rng::gen_range(0, len)`: an index below `len`. The call panics on an
/// empty range, which the precondition excludes.
#[verifier::external_body]
pub(crate) fn random_index(rand: &mut StdRng, len: usize) -> (i: usize)
    requires
        len > 0,
    ensures
        i < len,
{
    rand.gen_range(0, len)
}

/// `Rng::gen_range(low, high)`: a number from `low` up to, but excluding,
/// `high`. The call panics on an empty range, which the precondition
/// excludes.
#[verifier::external_body]
pub(crate) fn random_number(rand: &mut StdRng, low: Number, high: Number) -> (x: Number)
    requires
        low < high,
    ensures
        low <= x < high,
{
    rand.gen_range(low, high)
}

/// `Rng::gen_ratio(numerator, denominator)`: true with the given
/// probability; certainly false when the numerator is zero and certainly true
/// when the ratio is one. The call panics on a zero denominator or a ratio
/// above one, which the precondition excludes.
#[verifier::external_body]
pub(crate) fn random_bool(rand: &mut StdRng, p: Probability) -> (b: bool)
    requires
        p.wf(),
    ensures
        p.numerator == 0 ==> !b,
        p.numerator == p.denominator ==> b,
{
    rand.gen_ratio(p.numerator, p.denominator)
}

/// A table of weights prepared for sampling: `rand`'s `WeightedIndex<u32>`.
#[verifier::external_body]
pub struct WeightedTable {
    inner: WeightedIndex<u32>,
}

/// The weights a table was made from.
pub uninterp spec fn table_of(table: WeightedTable) -> Seq<u32>;

/// `WeightedIndex::new(weights)`: a distribution over the indices of
/// `weights`. Construction fails on an empty table or one whose weights are
/// all zero, and the running sum must not overflow; the precondition
/// excludes all three.
#[verifier::external_body]
pub(crate) fn weighted_table(weights: &Vec<u32>) -> (table: WeightedTable)
    requires
        samplable(weights@),
    ensures
        table_of(table) == weights@,
{
    WeightedTable { inner: WeightedIndex::new(weights.iter()).unwrap() }
}

/// `Distribution::sample` for `WeightedIndex`: an index into the table,
/// drawn with probability proportional to its weight, so never one of
/// weight zero.
#[verifier::external_body]
pub(crate) fn weighted_index(rand: &mut StdRng, table: &WeightedTable) -> (i: usize)
    ensures
        i < table_of(*table).len(),
        table_of(*table)[i as int] > 0,
{
    table.inner.sample(rand)
}

/// `IteratorRandom::choose` over the candidates: one of them, or `None` if
/// and only if there are none.
#[verifier::external_body]
pub(crate) fn random_candidate(
    rand: &mut StdRng,
    candidates: &Vec<usize>,
) -> (picked: Option<usize>)
    ensures
        picked.is_none() <==> candidates.len() == 0,
        picked matches Some(c) ==> candidates@.contains(c),
{
    candidates.iter().copied().choose(rand)
}

} // verus!
