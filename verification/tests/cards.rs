use blackjack::card::{Card, Suit, Value};
use blackjack::error::Error;

#[test]
fn ace_has_glyph_a_and_counts_eleven() {
    let ace = Value::new(14);
    assert_eq!(ace, Value::Ace);
    assert_eq!(ace.show(), "A");
    assert_eq!(ace.value(), 11);
}

#[test]
fn jack_has_glyph_j_and_counts_ten() {
    let jack = Value::new(11);
    assert_eq!(jack, Value::Jack);
    assert_eq!(jack.show(), "J");
    assert_eq!(jack.value(), 10);
}

#[test]
fn hearts_has_glyph_h() {
    assert_eq!(Suit::new(2), Suit::Hearts);
    assert_eq!(Suit::new(2).value(), 'H');
    assert_eq!(Suit::new(2).letter(), "H");
}

#[test]
fn every_rank_code_has_its_glyph_and_points() {
    let glyphs = ["2", "3", "4", "5", "6", "7", "8", "9", "10", "J", "Q", "K", "A"];
    let points = [2u8, 3, 4, 5, 6, 7, 8, 9, 10, 10, 10, 10, 11];
    for code in 2u8..=14 {
        let rank = Value::new(code);
        assert_eq!(rank.show(), glyphs[(code - 2) as usize]);
        assert_eq!(rank.value(), points[(code - 2) as usize]);
        assert_eq!(Value::from_code(code), Ok(rank));
    }
    assert_eq!(Value::new(7), Value::Num(7));
    assert_eq!(Value::new(12), Value::Queen);
    assert_eq!(Value::new(13), Value::King);
}

#[test]
fn every_suit_code_has_its_glyph() {
    let glyphs = ['C', 'D', 'H', 'S'];
    let suits = [Suit::Clubs, Suit::Diamonds, Suit::Hearts, Suit::Spades];
    for code in 0u8..=3 {
        let suit = Suit::new(code);
        assert_eq!(suit, suits[code as usize]);
        assert_eq!(suit.value(), glyphs[code as usize]);
        assert_eq!(suit.letter(), glyphs[code as usize].to_string());
        assert_eq!(Suit::from_code(code), Ok(suit));
    }
}

#[test]
fn rank_codes_out_of_range_are_rejected() {
    assert_eq!(Value::from_code(0), Err(Error::InvalidRankCode(0)));
    assert_eq!(Value::from_code(1), Err(Error::InvalidRankCode(1)));
    assert_eq!(Value::from_code(15), Err(Error::InvalidRankCode(15)));
    assert_eq!(Value::from_code(255), Err(Error::InvalidRankCode(255)));
}

#[test]
fn suit_codes_out_of_range_are_rejected() {
    assert_eq!(Suit::from_code(4), Err(Error::InvalidSuitCode(4)));
    assert_eq!(Suit::from_code(255), Err(Error::InvalidSuitCode(255)));
}

#[test]
fn new_card_is_hidden() {
    let card = Card::new(Value::King, Suit::Spades);
    assert!(card.hidden());
    assert_eq!(card.value(), Value::King);
    assert_eq!(card.suit(), Suit::Spades);
    assert_eq!(card.show(), "Card value: Hidden, Card suit: -");
}

#[test]
fn revealed_card_shows_its_rank_and_suit() {
    let mut card = Card::new(Value::Num(10), Suit::Diamonds);
    card.reveal_face();
    assert!(!card.hidden());
    assert_eq!(card.value(), Value::Num(10));
    assert_eq!(card.suit(), Suit::Diamonds);
    assert_eq!(card.show(), "Card value: 10, Card suit: D");
}

#[test]
fn revealing_twice_keeps_the_card_face_up() {
    let mut card = Card::new(Value::Ace, Suit::Clubs);
    card.reveal_face();
    let once = card;
    card.reveal_face();
    assert!(!card.hidden());
    assert_eq!(card, once);
    assert_eq!(card.show(), "Card value: A, Card suit: C");
    assert!(!card.show().contains("Hidden"));
}
