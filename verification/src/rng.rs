//! Trusted boundary to the `rand` crate.  Each wrapper states only what
//! holds of every outcome; nothing is promised about which value comes
//! back.

use vstd::prelude::*;

use rand::distributions::Distribution;
use rand::Rng;

verus! {

/// Sum of a weight table.
pub open spec fn weight_sum(s: Seq<u32>) -> int
    decreases s.len(),
{
    if s.len() == 0 {
        0
    } else {
        weight_sum(s.drop_last()) + s.last()
    }
}

/// Relies on `rand::Rng::gen_range` over a half-open `i64` range: it
/// returns a value of that range and panics only when the range is
/// empty, which the precondition excludes.
#[verifier::external_body]
pub fn rand_range(lo: i64, hi: i64) -> (r: i64)
    requires
        lo < hi,
    ensures
        lo <= r < hi,
{
    rand::thread_rng().gen_range(lo..hi)
}

/// Relies on `rand::random::<bool>`: a coin flip, of which nothing is
/// promised.
#[verifier::external_body]
pub fn rand_bool() -> (r: bool)
    ensures
        r == true || r == false,
{
    rand::random()
}

/// Relies on `rand::distributions::WeightedIndex`: `new` fails exactly
/// when the table is empty or sums to zero (a `u32` weight is never
/// negative), and `sample` returns the index of an entry drawn with
/// probability proportional to its weight, so never the index of a
/// zero-weight entry.  `new` sums the weights in `u32`, hence the bound
/// on the total.
#[verifier::external_body]
pub fn weighted_pick(weights: &Vec<u32>) -> (r: Option<usize>)
    requires
        weight_sum(weights@) <= u32::MAX,
    ensures
        match r {
            Some(i) => i < weights@.len() && weights@[i as int] > 0,
            None => weights@.len() == 0 || weight_sum(weights@) == 0,
        },
{
    match rand::distributions::WeightedIndex::new(weights.iter().cloned()) {
        Ok(dist) => Some(dist.sample(&mut rand::thread_rng())),
        Err(_) => None,
    }
}

} // verus!
