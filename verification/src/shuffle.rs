use vstd::prelude::*;
use rand::rngs::ThreadRng;
use rand::seq::SliceRandom;
use crate::card::Card;

verus! {

/// `rand::rngs::ThreadRng`, the generator that each thread keeps for itself.
/// Nothing is known of its state.
#[verifier::external_type_specification]
#[verifier::external_body]
pub struct ExThreadRng(ThreadRng);

/// `rand::thread_rng` hands out the calling thread's generator, seeded by the
/// operating system. Nothing is claimed of it. It fails only where the
/// operating system gives no entropy.
pub assume_specification[ rand::thread_rng ]() -> (rng: ThreadRng);

/// `rand::seq::SliceRandom::shuffle` reorders a slice in place by swapping
/// pairs of its elements. Which order comes out depends on the generator, so
/// the contract claims only what holds of every outcome: the cards are the
/// same ones as before, each as often as before. That every order is as
/// likely as any other is the generator's business and is not claimed here.
/// The call fails only where the generator cannot be seeded again.
#[verifier::external_body]
pub(crate) fn shuffle_cards(cards: &mut Vec<Card>, rng: &mut ThreadRng)
    ensures
        final(cards)@.to_multiset() == old(cards)@.to_multiset(),
{
    cards.shuffle(rng);
}

} // verus!
