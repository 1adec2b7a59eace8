//! The random choices of the game, drawn from the `rand` crate. Nothing in this file is
//! proved: each item states what the crate's source shows of the function it stands for.

use rand::rngs::ThreadRng;
use rand::seq::IteratorRandom;
use rand::RngExt;
use vstd::prelude::*;

verus! {

/// `rand::rngs::ThreadRng`, the handle to the thread-local generator. Nothing is known of
/// its state.
#[verifier::external_type_specification]
#[verifier::external_body]
pub struct ExThreadRng(rand::rngs::ThreadRng);

/// `rand::rng` hands out the thread-local generator. Nothing is claimed of it.
pub assume_specification[ rand::rng ]() -> (rng: rand::rngs::ThreadRng)
;

/// Whether `drawn` starts with items of `items` taken from the places `source`, no place
/// taken twice.
pub open spec fn drawn_from(
    items: Seq<(usize, usize)>,
    source: Seq<int>,
    drawn: Seq<Option<(usize, usize)>>,
) -> bool {
    &&& source.len() <= drawn.len()
    &&& source.no_duplicates()
    &&& forall|i: int|
        0 <= i < source.len() ==> 0 <= #[trigger] source[i] < items.len() && drawn[i] == Some(
            items[source[i]],
        )
}

/// `RngExt::random_ratio`: a Bernoulli trial that comes out `true` with a chance of
/// `numerator` in `denominator`. The call panics if `denominator` is zero or smaller than
/// `numerator`, hence the `requires`. All that is claimed of the result is what the crate
/// documents for the two certain cases.
#[verifier::external_body]
pub(crate) fn random_ratio(rng: &mut ThreadRng, numerator: u32, denominator: u32) -> (hit: bool)
    requires
        0 < denominator,
        numerator <= denominator,
    ensures
        numerator == denominator ==> hit,
        numerator == 0 ==> !hit,
{
    rng.random_ratio(numerator, denominator)
}

/// `IteratorRandom::choose` over the items of a vector: one of the items, picked uniformly,
/// and `None` exactly if there is no item.
#[verifier::external_body]
pub(crate) fn choose_one(rng: &mut ThreadRng, items: &Vec<(usize, usize)>) -> (picked: Option<
    (usize, usize),
>)
    ensures
        picked is None <==> items@.len() == 0,
        picked is Some ==> items@.contains(picked->0),
{
    items.iter().copied().choose(rng)
}

/// `IteratorRandom::sample_fill` over the items of a vector, each wrapped in `Some`: fills
/// `buf` from its start with items drawn without replacement, and returns how many slots it
/// filled, which is the length of `buf` or, if there are fewer items, their number. Slots
/// past that keep what they held.
#[verifier::external_body]
pub(crate) fn sample_fill(
    rng: &mut ThreadRng,
    items: &Vec<(usize, usize)>,
    buf: &mut [Option<(usize, usize)>],
) -> (filled: usize)
    ensures
        filled == if items@.len() < old(buf)@.len() {
            items@.len()
        } else {
            old(buf)@.len()
        },
        final(buf)@.len() == old(buf)@.len(),
        exists|source: Seq<int>|
            source.len() == filled && #[trigger] drawn_from(items@, source, final(buf)@),
        forall|i: int| filled <= i < old(buf)@.len() ==> final(buf)@[i] == old(buf)@[i],
{
    items.iter().copied().map(Some).sample_fill(rng, buf)
}

} // verus!
