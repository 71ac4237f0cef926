//! Chance, as `rand` deals it: an integer of a range, and a place among
//! many.

use rand::seq::IteratorRandom;
use rand::Rng;
use vstd::prelude::*;

verus! {

/// An integer from `min` to `max`, both included, drawn by chance.
/// Trusted: `Rng::gen_range` of `rand`, on the thread's generator and an
/// inclusive range, gives a value of the range; it panics on an empty range,
/// which `requires` leaves out. What is drawn differs from call to call, so
/// nothing more is said of it.
#[verifier::external_body]
pub(crate) fn random_between(min: i64, max: i64) -> (n: i64)
    requires
        min <= max,
    ensures
        min <= n <= max,
{
    rand::thread_rng().gen_range(min..=max)
}

/// One of the places `0` to `count - 1`, drawn by chance, or `None` where
/// there is no place. Trusted: `IteratorRandom::choose_stable` of `rand`
/// gives one item of the iterator it is called on, here the places in their
/// order, and `None` if and only if the iterator is empty.
#[verifier::external_body]
pub(crate) fn choose_position(count: usize) -> (r: Option<usize>)
    ensures
        count == 0 <==> r is None,
        r matches Some(position) ==> position < count,
{
    (0..count).choose_stable(&mut rand::thread_rng())
}

} // verus!
