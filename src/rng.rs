//! The random source that every sampling stage draws from.
//!
//! The stages never hold a generator themselves: each `generate_with_seed`
//! call receives the handle, so that one pipeline can be paired with any
//! independent source. Nothing can be promised of a random draw beyond the
//! range it falls in; the stages are specified over every possible outcome.
use rand::rngs::ThreadRng;
use rand::seq::SliceRandom;
use rand::Rng;
use vstd::prelude::*;

verus! {

#[verifier::external_type_specification]
#[verifier::external_body]
pub struct ExThreadRng(ThreadRng);

/// Relies on rand's `Rng::gen_range`: a value in `[low, high)`; it panics
/// when `low >= high`, which the precondition rules out.
#[verifier::external_body]
pub(crate) fn draw_below(rng: &mut ThreadRng, low: usize, high: usize) -> (r: usize)
    requires
        low < high,
    ensures
        low <= r < high,
{
    rng.gen_range(low, high)
}

/// Relies on rand's `SliceRandom::choose`: one element of the slice, and
/// `None` only when the slice is empty.
#[verifier::external_body]
pub(crate) fn choose_from<'a, T>(items: &'a [T], rng: &mut ThreadRng) -> (r: Option<&'a T>)
    ensures
        r is None <==> items@.len() == 0,
        r matches Some(x) ==> items@.contains(*x),
{
    items.choose(rng)
}

/// Relies on rand's `SliceRandom::shuffle`: the slice is permuted in place
/// by swaps, so it keeps its elements with their multiplicities.
#[verifier::external_body]
pub(crate) fn shuffle_in_place(items: &mut Vec<usize>, rng: &mut ThreadRng)
    ensures
        final(items)@.to_multiset() == old(items)@.to_multiset(),
{
    items.as_mut_slice().shuffle(rng)
}

} // verus!
