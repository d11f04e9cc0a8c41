use crate::card::Card;
use rand::seq::SliceRandom;
use rand::Rng;
use vstd::prelude::*;

verus! {

/// Relies on rand's `SliceRandom::shuffle`, which reorders the slice by swaps:
/// the deck keeps exactly the cards it had.
#[verifier::external_body]
pub(crate) fn shuffle_cards(deck: &mut Vec<Card>)
    ensures
        final(deck)@.to_multiset() == old(deck)@.to_multiset(),
{
    deck.shuffle(&mut rand::thread_rng());
}

/// Relies on `rand::seq::index::sample`, which returns `amount` distinct indices
/// below `length` (it panics only when `amount > length`).
#[verifier::external_body]
pub(crate) fn sample_two_distinct(length: usize) -> (r: (usize, usize))
    requires
        length >= 2,
    ensures
        r.0 < length,
        r.1 < length,
        r.0 != r.1,
{
    let picked = rand::seq::index::sample(&mut rand::thread_rng(), length, 2);
    (picked.index(0), picked.index(1))
}

/// Relies on rand's `Rng::gen_range(low, high)`, which draws from the half-open
/// range `[low, high)` and panics when it is empty.
#[verifier::external_body]
pub(crate) fn random_below(n: usize) -> (r: usize)
    requires
        n > 0,
    ensures
        r < n,
{
    rand::thread_rng().gen_range(0, n)
}

} // verus!
