use vstd::prelude::*;
use crate::card::Card;
use crate::text::{append_decimal, decimal};

verus! {

/// The points that the cards of a sequence count as they lie: the sum of the
/// points of those that are face up.
pub open spec fn visible_points(cards: Seq<Card>) -> nat
    decreases cards.len(),
{
    if cards.len() == 0 {
        0
    } else {
        visible_points(cards.drop_last()) + cards.last().visible_points()
    }
}

/// The same cards, all face up.
pub open spec fn all_face_up(cards: Seq<Card>) -> Seq<Card> {
    cards.map_values(|c: Card| c.face_up())
}

/// Every card that is face up is a card of a deck, so that its points are
/// known.
pub open spec fn countable(cards: Seq<Card>) -> bool {
    forall|i: int| 0 <= i < cards.len() ==> !(#[trigger] cards[i]).spec_hidden() ==> cards[i].wf()
}

/// The first cards of a sequence count no more than all of them.
pub proof fn lemma_visible_points_prefix(cards: Seq<Card>, k: int)
    requires
        0 <= k <= cards.len(),
    ensures
        visible_points(cards.take(k)) <= visible_points(cards),
    decreases cards.len(),
{
    if k == cards.len() {
        assert(cards.take(k) =~= cards);
    } else {
        lemma_visible_points_prefix(cards.drop_last(), k);
        assert(cards.drop_last().take(k) =~= cards.take(k));
    }
}

/// One more card adds its own points to those of the cards before it.
pub proof fn lemma_visible_points_step(cards: Seq<Card>, k: int)
    requires
        0 <= k < cards.len(),
    ensures
        visible_points(cards.take(k + 1)) == visible_points(cards.take(k))
            + cards[k].visible_points(),
{
    assert(cards.take(k + 1).drop_last() =~= cards.take(k));
}

/// Cards that are all face down count nothing.
pub proof fn lemma_hidden_count_nothing(cards: Seq<Card>)
    requires
        forall|i: int| 0 <= i < cards.len() ==> (#[trigger] cards[i]).spec_hidden(),
    ensures
        visible_points(cards) == 0,
        countable(cards),
    decreases cards.len(),
{
    if cards.len() > 0 {
        lemma_hidden_count_nothing(cards.drop_last());
    }
}

/// No card counts more than eleven points, so the cards of a sequence count
/// at most eleven times their number.
pub proof fn lemma_visible_points_bound(cards: Seq<Card>)
    requires
        countable(cards),
    ensures
        visible_points(cards) <= 11 * cards.len(),
    decreases cards.len(),
{
    if cards.len() > 0 {
        let rest = cards.drop_last();
        assert forall|i: int| 0 <= i < rest.len() && !(#[trigger] rest[i]).spec_hidden() implies rest[i].wf() by {
            assert(rest[i] == cards[i]);
        }
        lemma_visible_points_bound(rest);
        let c = cards.last();
        assert(c == cards[cards.len() - 1]);
    }
}

/// The cards of one participant, under a name, with the points that they
/// counted when the total was last worked out.
pub struct Hand {
    name: String,
    cards: Vec<Card>,
    value: u8,
}

/// What a hand holds.
pub struct HandView {
    pub name: Seq<char>,
    pub cards: Seq<Card>,
    pub value: nat,
}

impl HandView {
    /// The total is that of the cards as they lie now.
    pub open spec fn current(self) -> bool {
        self.value == visible_points(self.cards)
    }

    /// The lines that describe the hand: a rule, the name, one line for each
    /// card, the total, and a rule.
    pub open spec fn lines(self) -> Seq<Seq<char>> {
        seq!["-------------------------------"@, self.name] + self.cards.map_values(
            |c: Card| c.line(),
        ) + seq![
            "Current hand value "@ + decimal(self.value),
            "-------------------------------"@,
        ]
    }
}

impl View for Hand {
    type V = HandView;

    closed spec fn view(&self) -> HandView {
        HandView { name: self.name@, cards: self.cards@, value: self.value as nat }
    }
}

/// The points that the cards count as they lie.
fn count_visible(cards: &Vec<Card>) -> (value: u8)
    requires
        countable(cards@),
        visible_points(cards@) <= u8::MAX,
    ensures
        value == visible_points(cards@),
{
    let mut value: u8 = 0;
    let mut i: usize = 0;
    while i < cards.len()
        invariant
            0 <= i <= cards@.len(),
            countable(cards@),
            visible_points(cards@) <= u8::MAX,
            value == visible_points(cards@.take(i as int)),
        decreases cards@.len() - i,
    {
        proof {
            lemma_visible_points_step(cards@, i as int);
            lemma_visible_points_prefix(cards@, i + 1);
        }
        let card = &cards[i];
        if !card.hidden() {
            value += card.value().value();
        }
        i += 1;
    }
    assert(cards@.take(i as int) =~= cards@);
    value
}

impl Hand {
    /// A hand with the given name and cards. Its total is that of the cards
    /// as they lie: cards that are face down count nothing. The total is
    /// kept in a byte, so the cards that are face up must not count more
    /// than 255 points together.
    pub fn new(name: String, cards: Vec<Card>) -> (hand: Hand)
        requires
            countable(cards@),
            visible_points(cards@) <= u8::MAX,
        ensures
            hand@.name == name@,
            hand@.cards == cards@,
            hand@.value == visible_points(cards@),
            hand@.current(),
    {
        let value = count_visible(&cards);
        Hand { name, cards, value }
    }

    /// Works the total out again from the cards as they lie now.
    pub fn recalulate_value(&mut self)
        requires
            countable(old(self)@.cards),
            visible_points(old(self)@.cards) <= u8::MAX,
        ensures
            final(self)@.name == old(self)@.name,
            final(self)@.cards == old(self)@.cards,
            final(self)@.value == visible_points(old(self)@.cards),
            final(self)@.current(),
    {
        self.value = count_visible(&self.cards);
    }

    /// Turns every card of the hand face up and brings the total up to date.
    pub fn reveal_all(&mut self)
        requires
            forall|i: int| 0 <= i < old(self)@.cards.len() ==> (#[trigger] old(self)@.cards[i]).wf(),
            visible_points(all_face_up(old(self)@.cards)) <= u8::MAX,
        ensures
            final(self)@.name == old(self)@.name,
            final(self)@.cards == all_face_up(old(self)@.cards),
            final(self)@.value == visible_points(all_face_up(old(self)@.cards)),
            final(self)@.current(),
    {
        broadcast use Card::lemma_face_up;

        let mut i: usize = 0;
        while i < self.cards.len()
            invariant
                0 <= i <= self.cards@.len(),
                self.cards@.len() == old(self).cards@.len(),
                self.name == old(self).name,
                forall|k: int| 0 <= k < i ==> self.cards@[k] == (#[trigger] old(self).cards@[k]).face_up(),
                forall|k: int| i <= k < self.cards@.len() ==> self.cards@[k] == #[trigger] old(self).cards@[k],
            decreases self.cards@.len() - i,
        {
            self.cards[i].reveal_face();
            i += 1;
        }
        proof {
            assert(self.cards@ =~= all_face_up(old(self).cards@));
            assert forall|k: int| 0 <= k < self.cards@.len() implies (#[trigger] self.cards@[k]).wf() by {
                assert(old(self).cards@[k].wf());
            }
        }
        self.value = count_visible(&self.cards);
    }

    /// The lines that describe the hand: a rule, the name, one line for each
    /// card, the total as it was last worked out, and a rule.
    pub fn show(&self) -> (lines: Vec<String>)
        requires
            countable(self@.cards),
        ensures
            lines@.len() == self@.cards.len() + 4,
            lines@.map_values(|s: String| s@) == self@.lines(),
    {
        let mut lines: Vec<String> = Vec::new();
        lines.push(String::from_str("-------------------------------"));
        lines.push(self.name.clone());
        let mut i: usize = 0;
        while i < self.cards.len()
            invariant
                0 <= i <= self.cards@.len(),
                countable(self.cards@),
                lines@.len() == i + 2,
                lines@[0]@ == "-------------------------------"@,
                lines@[1]@ == self.name@,
                forall|k: int| 0 <= k < i ==> (#[trigger] lines@[k + 2])@ == self.cards@[k].line(),
            decreases self.cards@.len() - i,
        {
            let line = self.cards[i].show();
            lines.push(line);
            i += 1;
        }
        let mut total = String::from_str("Current hand value ");
        append_decimal(&mut total, self.value);
        lines.push(total);
        lines.push(String::from_str("-------------------------------"));
        proof {
            let shown = lines@.map_values(|s: String| s@);
            let wanted = self@.lines();
            let n = self.cards@.len() as int;
            assert(wanted.len() == n + 4);
            assert forall|j: int| 0 <= j < n + 4 implies shown[j] == wanted[j] by {
                if 2 <= j < n + 2 {
                    let k = j - 2;
                    assert(lines@[k + 2]@ == self.cards@[k].line());
                }
            }
            assert(shown =~= wanted);
        }
        lines
    }

    /// The name of the hand.
    pub fn name(&self) -> (name: &String)
        ensures
            name@ == self@.name,
    {
        &self.name
    }

    /// The cards of the hand.
    pub fn cards(&self) -> (cards: &Vec<Card>)
        ensures
            cards@ == self@.cards,
    {
        &self.cards
    }

    /// The total as it was last worked out.
    pub fn value(&self) -> (value: u8)
        ensures
            value == self@.value,
    {
        self.value
    }
}

} // verus!
