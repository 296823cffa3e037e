//! Draws from the host's cryptographic entropy source. Every draw goes
//! through rand's `OsRng`, which asks getrandom for fresh bytes each time and
//! panics when the host cannot deliver them; `entropy_available` lets a
//! caller find that out first and fail with an error instead.

use rand::rngs::OsRng;
use rand::seq::{IteratorRandom, SliceRandom};
use rand::Rng;
use vstd::prelude::*;
use crate::template::indices_below;

verus! {

/// Relies on getrandom::getrandom: reports whether the host entropy source
/// could fill a buffer.
#[verifier::external_body]
pub(crate) fn entropy_available() -> (r: bool) {
    let mut probe = [0u8; 1];
    getrandom::getrandom(&mut probe).is_ok()
}

/// Relies on rand's IteratorRandom::choose: one element of a non-empty
/// iterator, none of an empty one.
#[verifier::external_body]
pub(crate) fn choose_from(candidates: &Vec<usize>) -> (r: Option<usize>)
    ensures
        r is Some <==> candidates@.len() > 0,
        r is Some ==> candidates@.contains(r->0),
{
    candidates.iter().copied().choose(&mut OsRng)
}

/// Relies on rand's IteratorRandom::choose_multiple: `min(n, k)` distinct
/// elements of `0..n`, each yielded once by the range.
#[verifier::external_body]
pub(crate) fn sample_indices(n: usize, k: usize) -> (r: Vec<usize>)
    ensures
        r@.len() == if k <= n {
            k
        } else {
            n
        },
        indices_below(r@, n as nat),
        r@.no_duplicates(),
{
    (0..n).choose_multiple(&mut OsRng, k)
}

/// Relies on rand's SliceRandom::shuffle: the same elements in a new order.
#[verifier::external_body]
pub(crate) fn shuffle_indices(v: &mut Vec<usize>)
    ensures
        final(v)@.len() == old(v)@.len(),
        final(v)@.to_multiset() == old(v)@.to_multiset(),
{
    v.shuffle(&mut OsRng)
}

/// Relies on rand's Rng::gen_range over an inclusive range: a value between
/// the bounds, which panics only on an empty range.
#[verifier::external_body]
pub(crate) fn random_between(lo: usize, hi: usize) -> (r: usize)
    requires
        lo <= hi,
    ensures
        lo <= r <= hi,
{
    OsRng.gen_range(lo..=hi)
}

} // verus!
