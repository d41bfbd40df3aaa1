use blackjack::card::{Card, Suit, Value};
use blackjack::deck::{Deck, DECK_SIZE};

fn place(card: &Card) -> usize {
    let suit = match card.suit() {
        Suit::Clubs => 0,
        Suit::Diamonds => 1,
        Suit::Hearts => 2,
        Suit::Spades => 3,
    };
    let rank = match card.value() {
        Value::Num(n) => n as usize,
        Value::Jack => 11,
        Value::Queen => 12,
        Value::King => 13,
        Value::Ace => 14,
    };
    suit * 13 + rank - 2
}

fn places(cards: &[Card]) -> Vec<usize> {
    let mut found: Vec<usize> = cards.iter().map(place).collect();
    found.sort();
    found
}

#[test]
fn new_deck_holds_each_card_once_in_order() {
    let deck = Deck::new();
    assert_eq!(DECK_SIZE, 52);
    assert_eq!(deck.drawable().len(), 52);
    assert_eq!(deck.remaining(), 52);
    assert!(deck.drawn().is_empty());
    for (i, card) in deck.drawable().iter().enumerate() {
        assert!(card.hidden());
        assert_eq!(place(card), i);
        assert_eq!(card.suit(), Suit::new((i / 13) as u8));
        assert_eq!(card.value(), Value::new((i % 13 + 2) as u8));
    }
    assert_eq!(deck.drawable()[0], Card::new(Value::Num(2), Suit::Clubs));
    assert_eq!(deck.drawable()[12], Card::new(Value::Ace, Suit::Clubs));
    assert_eq!(deck.drawable()[13], Card::new(Value::Num(2), Suit::Diamonds));
    assert_eq!(deck.drawable()[51], Card::new(Value::Ace, Suit::Spades));
}

#[test]
fn new_deck_holds_each_rank_four_times_and_each_suit_thirteen_times() {
    let deck = Deck::new();
    for code in 2u8..=14 {
        let rank = Value::new(code);
        let with_rank: Vec<&Card> =
            deck.drawable().iter().filter(|c| c.value() == rank).collect();
        assert_eq!(with_rank.len(), 4);
        for s in 0u8..=3 {
            assert_eq!(with_rank.iter().filter(|c| c.suit() == Suit::new(s)).count(), 1);
        }
    }
    for s in 0u8..=3 {
        let suit = Suit::new(s);
        assert_eq!(deck.drawable().iter().filter(|c| c.suit() == suit).count(), 13);
    }
}

#[test]
fn draw_takes_cards_from_the_front_in_order() {
    let mut deck = Deck::new();
    let fresh = deck.drawable().clone();
    let hand = deck.retreive(3);
    assert_eq!(hand, fresh[0..3].to_vec());
    assert_eq!(deck.drawn(), &fresh[0..3].to_vec());
    assert_eq!(deck.drawable(), &fresh[3..].to_vec());
    let more = deck.retreive(2);
    assert_eq!(more, fresh[3..5].to_vec());
    assert_eq!(deck.drawn(), &fresh[0..5].to_vec());
    assert_eq!(deck.drawable(), &fresh[5..].to_vec());
    assert_eq!(deck.remaining(), 47);
}

#[test]
fn draw_of_nothing_changes_nothing() {
    let mut deck = Deck::new();
    let fresh = deck.drawable().clone();
    let hand = deck.retreive(0);
    assert!(hand.is_empty());
    assert_eq!(deck.drawable(), &fresh);
    assert!(deck.drawn().is_empty());
}

#[test]
fn draws_conserve_the_fifty_two_cards() {
    let mut deck = Deck::new();
    deck.shuffle();
    for n in [1u8, 0, 7, 2, 13, 29] {
        deck.retreive(n);
        assert_eq!(deck.drawable().len() + deck.drawn().len(), 52);
        let mut all = deck.drawable().clone();
        all.extend(deck.drawn().iter().copied());
        assert_eq!(places(&all), (0..52).collect::<Vec<usize>>());
        for card in deck.drawable() {
            assert!(!deck.drawn().contains(card));
        }
    }
    assert_eq!(deck.remaining(), 0);
    assert_eq!(deck.drawn().len(), 52);
}

#[test]
fn whole_deck_can_be_drawn_at_once() {
    let mut deck = Deck::new();
    let fresh = deck.drawable().clone();
    let hand = deck.retreive(52);
    assert_eq!(hand, fresh);
    assert!(deck.drawable().is_empty());
    assert_eq!(deck.drawn(), &fresh);
}

#[test]
fn shuffle_is_a_permutation() {
    let mut deck = Deck::new();
    deck.shuffle();
    assert_eq!(deck.drawable().len(), 52);
    assert!(deck.drawn().is_empty());
    assert_eq!(places(deck.drawable()), (0..52).collect::<Vec<usize>>());
    assert!(deck.drawable().iter().all(|c| c.hidden()));
}

#[test]
fn shuffle_leaves_the_drawn_cards_alone() {
    let mut deck = Deck::new();
    let drawn = deck.retreive(10);
    let before = places(deck.drawable());
    deck.shuffle();
    assert_eq!(deck.drawn(), &drawn);
    assert_eq!(places(deck.drawable()), before);
    assert_eq!(deck.drawable().len(), 42);
}

#[test]
fn shuffle_changes_the_order() {
    let fresh = Deck::new().drawable().clone();
    let mut changed = false;
    for _ in 0..5 {
        let mut deck = Deck::new();
        deck.shuffle();
        if deck.drawable() != &fresh {
            changed = true;
        }
    }
    assert!(changed);
}

#[test]
fn shuffles_differ_from_one_another() {
    let mut first = Deck::new();
    first.shuffle();
    let mut differs = false;
    for _ in 0..5 {
        let mut other = Deck::new();
        other.shuffle();
        if other.drawable() != first.drawable() {
            differs = true;
        }
    }
    assert!(differs);
}

#[test]
fn deck_shows_one_line_for_each_drawable_card() {
    let mut deck = Deck::new();
    deck.retreive(50);
    let lines = deck.show();
    assert_eq!(
        lines,
        vec![
            "Card value: Hidden, Card suit: -".to_string(),
            "Card value: Hidden, Card suit: -".to_string(),
        ]
    );
    assert_eq!(Deck::new().show().len(), 52);
}
