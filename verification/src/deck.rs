use vstd::prelude::*;
use vstd::seq_lib::*;
use crate::card::{Card, Suit, Value};
use crate::shuffle::shuffle_cards;

verus! {

/// The number of cards in a deck.
pub const DECK_SIZE: usize = 52;

/// The card that a new deck holds at a given place: the suits follow one
/// another, and within a suit the ranks rise from 2 to the ace.
pub open spec fn fresh_card(i: int) -> Card {
    Card::face_down(Value::of_code(i % 13 + 2), Suit::of_code(i / 13))
}

/// What holds of the card at place `i` of a new deck: it is a card of the
/// deck, face down, and its rank and suit give its place back.
pub open spec fn fresh_placed(c: Card, i: int) -> bool {
    &&& c.wf()
    &&& c.spec_hidden()
    &&& Value::valid_code(c.spec_value().code())
    &&& Suit::valid_code(c.spec_suit().code())
    &&& c.index() == i
}

/// The cards of a new deck, in the order in which it holds them.
pub open spec fn fresh_cards() -> Seq<Card> {
    Seq::new(52, |i: int| fresh_card(i))
}

/// A deck of cards: those that can still be drawn, the next one first, and
/// those that were drawn already, in the order in which they left.
pub struct Deck {
    retreivable_cards: Vec<Card>,
    retreived_cards: Vec<Card>,
}

/// What a deck holds.
pub struct DeckView {
    pub drawable: Seq<Card>,
    pub drawn: Seq<Card>,
}

impl View for Deck {
    type V = DeckView;

    closed spec fn view(&self) -> DeckView {
        DeckView { drawable: self.retreivable_cards@, drawn: self.retreived_cards@ }
    }
}

impl DeckView {
    /// All the cards of the deck, the drawable ones first.
    pub open spec fn all(self) -> Seq<Card> {
        self.drawable + self.drawn
    }

    /// The two pools together hold the cards of a new deck, each once.
    pub open spec fn wf(self) -> bool {
        self.all().to_multiset() == fresh_cards().to_multiset()
    }

    /// The deck after its first `n` drawable cards were drawn.
    pub open spec fn after_draw(self, n: int) -> DeckView {
        DeckView { drawable: self.drawable.skip(n), drawn: self.drawn + self.drawable.take(n) }
    }
}

/// A new deck holds fifty-two cards, all face down and no two alike: for each
/// rank and each suit there is one place, and only one, where the card of
/// that rank and suit lies. So each rank occurs four times, once in each
/// suit, and each suit thirteen times, once with each rank.
pub proof fn lemma_fresh_cards_complete()
    ensures
        fresh_cards().len() == 52,
        fresh_cards().no_duplicates(),
        forall|i: int| 0 <= i < 52 ==> fresh_placed(#[trigger] fresh_cards()[i], i),
        forall|r: int, s: int|
            Value::valid_code(r) && Suit::valid_code(s) ==> fresh_cards()[s * 13 + r - 2]
                == #[trigger] Card::face_down(Value::of_code(r), Suit::of_code(s)),
{
    broadcast use Card::lemma_fields;

    assert forall|i: int| 0 <= i < 52 implies fresh_placed(#[trigger] fresh_cards()[i], i) by {
        let c = fresh_cards()[i];
        assert(c == fresh_card(i));
        assert(c.spec_value() == Value::of_code(i % 13 + 2));
        assert(c.spec_suit() == Suit::of_code(i / 13));
    }
    assert forall|i: int, j: int| 0 <= i < 52 && 0 <= j < 52 && i != j implies fresh_cards()[i]
        != fresh_cards()[j] by {
        assert(fresh_placed(fresh_cards()[i], i));
        assert(fresh_placed(fresh_cards()[j], j));
    }
    assert forall|r: int, s: int| Value::valid_code(r) && Suit::valid_code(s) implies fresh_cards()[s
        * 13 + r - 2] == #[trigger] Card::face_down(Value::of_code(r), Suit::of_code(s)) by {
        let i = s * 13 + r - 2;
        assert(i % 13 + 2 == r && i / 13 == s);
        assert(fresh_cards()[i] == fresh_card(i));
    }
}

/// In a deck whose two pools together hold the cards of a new deck, the pools
/// hold fifty-two cards between them, no card lies twice in one pool or in
/// both, and every card is a card of the deck and face down.
pub proof fn lemma_wf_conserved(d: DeckView)
    requires
        d.wf(),
    ensures
        d.drawable.len() + d.drawn.len() == 52,
        d.all().no_duplicates(),
        d.drawable.no_duplicates(),
        d.drawn.no_duplicates(),
        forall|i: int, j: int|
            0 <= i < d.drawable.len() && 0 <= j < d.drawn.len() ==> d.drawable[i] != d.drawn[j],
        forall|i: int| 0 <= i < d.all().len() ==> fresh_cards().contains(#[trigger] d.all()[i]),
        forall|i: int|
            0 <= i < d.drawable.len() ==> (#[trigger] d.drawable[i]).wf()
                && d.drawable[i].spec_hidden(),
        forall|i: int|
            0 <= i < d.drawn.len() ==> (#[trigger] d.drawn[i]).wf() && d.drawn[i].spec_hidden(),
{
    let all = d.all();
    let fresh = fresh_cards();
    lemma_fresh_cards_complete();
    to_multiset_len(all);
    to_multiset_len(fresh);
    fresh.lemma_multiset_has_no_duplicates();
    all.lemma_multiset_has_no_duplicates_conv();
    all.to_multiset_ensures();
    fresh.to_multiset_ensures();
    assert forall|i: int| 0 <= i < all.len() implies fresh.contains(#[trigger] all[i]) by {
        assert(all.contains(all[i]));
        assert(all.to_multiset().count(all[i]) > 0);
    }
    assert forall|i: int| 0 <= i < all.len() implies (#[trigger] all[i]).wf()
        && all[i].spec_hidden() by {
        assert(fresh.contains(all[i]));
        let k = choose|k: int| 0 <= k < fresh.len() && fresh[k] == all[i];
        assert(fresh_placed(fresh[k], k));
    }
    assert forall|i: int| 0 <= i < d.drawable.len() implies (#[trigger] d.drawable[i]).wf()
        && d.drawable[i].spec_hidden() by {
        assert(all[i] == d.drawable[i]);
    }
    assert forall|i: int| 0 <= i < d.drawn.len() implies (#[trigger] d.drawn[i]).wf()
        && d.drawn[i].spec_hidden() by {
        assert(all[d.drawable.len() + i] == d.drawn[i]);
    }
    assert forall|i: int, j: int| 0 <= i < j < d.drawable.len() implies d.drawable[i]
        != d.drawable[j] by {
        assert(all[i] == d.drawable[i] && all[j] == d.drawable[j]);
    }
    assert forall|i: int, j: int| 0 <= i < j < d.drawn.len() implies d.drawn[i] != d.drawn[j] by {
        assert(all[d.drawable.len() + i] == d.drawn[i]);
        assert(all[d.drawable.len() + j] == d.drawn[j]);
    }
    assert forall|i: int, j: int|
        0 <= i < d.drawable.len() && 0 <= j < d.drawn.len() implies d.drawable[i]
        != d.drawn[j] by {
        assert(all[i] == d.drawable[i]);
        assert(all[d.drawable.len() + j] == d.drawn[j]);
    }
}

/// Drawing cards moves them from one pool to the other and loses none: the
/// deck after a draw holds the cards that it held before.
pub proof fn lemma_draw_conserves(d: DeckView, n: int)
    requires
        0 <= n <= d.drawable.len(),
    ensures
        d.after_draw(n).all().to_multiset() == d.all().to_multiset(),
        d.wf() ==> d.after_draw(n).wf(),
        d.after_draw(n).drawable.len() + d.after_draw(n).drawn.len() == d.drawable.len()
            + d.drawn.len(),
{
    let taken = d.drawable.take(n);
    let rest = d.drawable.skip(n);
    assert(d.drawable =~= taken + rest);
    lemma_multiset_commutative(taken, rest);
    lemma_multiset_commutative(d.drawable, d.drawn);
    lemma_multiset_commutative(d.drawn, taken);
    lemma_multiset_commutative(rest, d.drawn + taken);
    assert(d.after_draw(n).all().to_multiset() =~= d.all().to_multiset());
}

/// The deck after several draws, one after the other, of the given numbers
/// of cards.
pub open spec fn after_draws(d: DeckView, draws: Seq<nat>) -> DeckView
    decreases draws.len(),
{
    if draws.len() == 0 {
        d
    } else {
        after_draws(d, draws.drop_last()).after_draw(draws.last() as int)
    }
}

/// Each of the draws asks for no more cards than the deck can give when its
/// turn comes.
pub open spec fn draws_fit(d: DeckView, draws: Seq<nat>) -> bool
    decreases draws.len(),
{
    if draws.len() == 0 {
        true
    } else {
        draws_fit(d, draws.drop_last()) && draws.last() <= after_draws(
            d,
            draws.drop_last(),
        ).drawable.len()
    }
}

/// Whatever is drawn from a deck, and in however many draws, the two pools
/// hold fifty-two cards between them and no card lies in both.
pub proof fn lemma_draws_conserve(d: DeckView, draws: Seq<nat>)
    requires
        d.wf(),
        draws_fit(d, draws),
    ensures
        after_draws(d, draws).wf(),
        after_draws(d, draws).drawable.len() + after_draws(d, draws).drawn.len() == 52,
        forall|i: int, j: int|
            0 <= i < after_draws(d, draws).drawable.len() && 0 <= j < after_draws(
                d,
                draws,
            ).drawn.len() ==> after_draws(d, draws).drawable[i] != after_draws(d, draws).drawn[j],
    decreases draws.len(),
{
    if draws.len() > 0 {
        lemma_draws_conserve(d, draws.drop_last());
        lemma_draw_conserves(after_draws(d, draws.drop_last()), draws.last() as int);
    }
    lemma_wf_conserved(after_draws(d, draws));
}

/// Reordering the drawable cards of a deck leaves it a deck: a deck whose
/// drawable cards are the same ones as before, each as often as before, and
/// whose drawn cards are untouched, holds what it held.
pub proof fn lemma_shuffle_conserves(before: DeckView, after: DeckView)
    requires
        after.drawable.to_multiset() == before.drawable.to_multiset(),
        after.drawn == before.drawn,
    ensures
        after.drawable.len() == before.drawable.len(),
        after.all().to_multiset() == before.all().to_multiset(),
        before.wf() ==> after.wf(),
{
    to_multiset_len(before.drawable);
    to_multiset_len(after.drawable);
    lemma_multiset_commutative(before.drawable, before.drawn);
    lemma_multiset_commutative(after.drawable, after.drawn);
}

impl Deck {
    /// The deck holds the cards of a new deck, each once, in its two pools.
    pub open spec fn wf(&self) -> bool {
        self@.wf()
    }

    /// A new deck: all fifty-two cards can be drawn, suit by suit and within
    /// a suit by rising rank, and none was drawn yet.
    pub fn new() -> (deck: Deck)
        ensures
            deck@.drawable == fresh_cards(),
            deck@.drawn == Seq::<Card>::empty(),
            deck.wf(),
    {
        let mut retreivable_cards: Vec<Card> = Vec::new();
        let retreived_cards: Vec<Card> = Vec::new();
        let mut s: u8 = 0;
        while s <= 3
            invariant
                0 <= s <= 4,
                retreivable_cards@.len() == s * 13,
                forall|i: int| 0 <= i < s * 13 ==> retreivable_cards@[i] == fresh_card(i),
            decreases 4 - s,
        {
            let mut n: u8 = 2;
            while n <= 14
                invariant
                    0 <= s <= 3,
                    2 <= n <= 15,
                    retreivable_cards@.len() == s * 13 + n - 2,
                    forall|i: int|
                        0 <= i < s * 13 + n - 2 ==> retreivable_cards@[i] == fresh_card(i),
                decreases 15 - n,
            {
                let c: Card = Card::new(Value::new(n), Suit::new(s));
                proof {
                    let i = s * 13 + n - 2;
                    assert(i % 13 + 2 == n && i / 13 == s);
                }
                retreivable_cards.push(c);
                n += 1;
            }
            s += 1;
        }
        assert(retreivable_cards@ =~= fresh_cards());
        assert(retreivable_cards@ + retreived_cards@ =~= fresh_cards());
        Deck { retreivable_cards, retreived_cards }
    }

    /// Puts the cards that can still be drawn into a random order. The drawn
    /// cards are not touched.
    pub fn shuffle(&mut self)
        ensures
            final(self)@.drawable.to_multiset() == old(self)@.drawable.to_multiset(),
            final(self)@.drawable.len() == old(self)@.drawable.len(),
            final(self)@.drawn == old(self)@.drawn,
            old(self).wf() ==> final(self).wf(),
    {
        let mut rng = rand::thread_rng();
        shuffle_cards(&mut self.retreivable_cards, &mut rng);
        proof {
            lemma_shuffle_conserves(old(self)@, self@);
        }
    }

    /// The lines that describe the cards that can still be drawn, one line
    /// for each card, the next card first.
    pub fn show(&self) -> (lines: Vec<String>)
        requires
            self.wf(),
        ensures
            lines@.len() == self@.drawable.len(),
            forall|i: int| 0 <= i < lines@.len() ==> (#[trigger] lines@[i])@ == self@.drawable[i].line(),
    {
        proof {
            lemma_wf_conserved(self@);
        }
        let mut lines: Vec<String> = Vec::new();
        let mut i: usize = 0;
        while i < self.retreivable_cards.len()
            invariant
                0 <= i <= self.retreivable_cards@.len(),
                lines@.len() == i,
                forall|k: int|
                    0 <= k < self.retreivable_cards@.len() ==> (
                    #[trigger] self.retreivable_cards@[k]).spec_hidden(),
                forall|k: int|
                    0 <= k < i ==> (#[trigger] lines@[k])@ == self.retreivable_cards@[k].line(),
            decreases self.retreivable_cards@.len() - i,
        {
            let line = self.retreivable_cards[i].show();
            lines.push(line);
            i += 1;
        }
        lines
    }

    /// Draws the next `n` cards. They leave the drawable cards from the
    /// front, join the drawn cards at the back in the order in which they
    /// left, and are handed out in that order.
    pub fn retreive(&mut self, n: u8) -> (hand: Vec<Card>)
        requires
            n <= old(self)@.drawable.len(),
        ensures
            hand@ == old(self)@.drawable.take(n as int),
            final(self)@ == old(self)@.after_draw(n as int),
            old(self).wf() ==> final(self).wf(),
    {
        let mut hand: Vec<Card> = Vec::new();
        let mut i: u8 = 0;
        while i < n
            invariant
                0 <= i <= n <= old(self)@.drawable.len(),
                hand@ == old(self)@.drawable.take(i as int),
                self@.drawable == old(self)@.drawable.skip(i as int),
                self@.drawn == old(self)@.drawn + old(self)@.drawable.take(i as int),
            decreases n - i,
        {
            let card = self.retreivable_cards[0];
            hand.push(card);
            self.retreived_cards.push(card);
            self.retreivable_cards.remove(0);
            i += 1;
            proof {
                let before = old(self)@;
                assert(hand@ =~= before.drawable.take(i as int));
                assert(self@.drawable =~= before.drawable.skip(i as int));
                assert(self@.drawn =~= before.drawn + before.drawable.take(i as int));
            }
        }
        proof {
            assert(self@ =~= old(self)@.after_draw(n as int));
            lemma_draw_conserves(old(self)@, n as int);
        }
        hand
    }

    /// How many cards can still be drawn.
    pub fn remaining(&self) -> (n: usize)
        ensures
            n == self@.drawable.len(),
    {
        self.retreivable_cards.len()
    }

    /// The cards that can still be drawn, the next one first.
    pub fn drawable(&self) -> (cards: &Vec<Card>)
        ensures
            cards@ == self@.drawable,
    {
        &self.retreivable_cards
    }

    /// The cards that were drawn, in the order in which they left.
    pub fn drawn(&self) -> (cards: &Vec<Card>)
        ensures
            cards@ == self@.drawn,
    {
        &self.retreived_cards
    }
}

} // verus!
