//! The random draws of the search, made by the `rand` crate.
//!
//! Nothing here is proved, and nothing is claimed of a draw but what holds of
//! every outcome.
use vstd::prelude::*;
use rand::seq::SliceRandom;
use rand::Rng;

verus! {

/// `Rng::gen_range` on the thread's generator: a number of the half-open
/// range from `low` to `high`. The call panics on an empty range, which the
/// precondition leaves out.
#[verifier::external_body]
pub(crate) fn random_between(low: usize, high: usize) -> (pick: usize)
    requires
        low < high,
    ensures
        low <= pick < high,
{
    rand::thread_rng().gen_range(low..high)
}

/// `SliceRandom::shuffle` on the thread's generator: the same characters in
/// some order.
#[verifier::external_body]
pub(crate) fn shuffled(layout: [char; 32]) -> (mixed: [char; 32])
    ensures
        mixed@.to_multiset() == layout@.to_multiset(),
{
    let mut mixed = layout;
    mixed.shuffle(&mut rand::thread_rng());
    mixed
}

} // verus!
