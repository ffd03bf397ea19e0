//! Draws from the `rand` crate. What comes back is chance: the contracts
//! here claim only what holds of every draw. They are assumed of `rand`,
//! not proved.

use crate::messages::strings_view;
use rand::rngs::StdRng;
use rand::seq::SliceRandom;
use rand::Rng;
use vstd::prelude::*;

verus! {

/// `rand::rngs::StdRng`, the standard generator of `rand`, carried through
/// as it is: nothing of its state is visible here.
#[verifier::external_type_specification]
#[verifier::external_body]
pub struct ExStdRng(StdRng);

/// Calls `rand::random::<u32>()`: one number from the generator of the
/// calling thread. Nothing is claimed of it.
#[verifier::external_body]
pub(crate) fn random_u32() -> (r: u32) {
    rand::random::<u32>()
}

/// Calls `Rng::gen_range` on `rand::thread_rng()` with the range from
/// `low` to `high`, `high` left out. Assumed: the draw lies in the range.
/// `gen_range` panics on an empty range, so the range must hold a number.
#[verifier::external_body]
pub(crate) fn random_in_range(low: u32, high: u32) -> (r: u32)
    requires
        low < high,
    ensures
        low <= r < high,
{
    rand::thread_rng().gen_range(low..high)
}

/// Calls `SliceRandom::choose` of `rand` on the items of a vector. Assumed:
/// it yields `None` where there is no item, else one of the items,
/// whichever the generator picks.
#[verifier::external_body]
pub(crate) fn choose_from<'a, T>(candidates: &'a Vec<T>, rng: &mut StdRng) -> (r: Option<&'a T>)
    ensures
        candidates@.len() == 0 ==> r is None,
        candidates@.len() > 0 ==> r is Some && candidates@.contains(*r->0),
{
    candidates.choose(rng)
}

/// Calls `SliceRandom::shuffle` of `rand` with `rand::thread_rng()`.
/// Assumed: the texts are the same as before, each as often as before, in
/// an order that the generator picks.
#[verifier::external_body]
pub(crate) fn shuffle_texts(texts: &mut Vec<String>)
    ensures
        strings_view(final(texts)@).to_multiset() == strings_view(old(texts)@).to_multiset(),
{
    texts.shuffle(&mut rand::thread_rng())
}

} // verus!
