use blackjack::card::Card;
use blackjack::deck::Deck;
use blackjack::error::Error;
use blackjack::game::Game;
use blackjack::hand::Hand;
use blackjack::round::{advance, Phase};

fn hands_of(game: &Game) -> Vec<&Hand> {
    let mut hands = vec![game.dealer()];
    hands.extend(game.players().iter());
    hands
}

fn dealt_cards(game: &Game) -> Vec<Card> {
    hands_of(game).iter().flat_map(|h| h.cards().iter().copied()).collect()
}

#[test]
fn three_players_get_two_hidden_cards_each() {
    let game = Game::new(3).ok().unwrap();
    assert_eq!(game.dealer().cards().len(), 2);
    assert_eq!(game.dealer().name(), "Dealer");
    assert_eq!(game.players().len(), 3);
    for (i, player) in game.players().iter().enumerate() {
        assert_eq!(player.cards().len(), 2);
        assert_eq!(player.name(), &format!("Player {}", i + 1));
        assert_eq!(player.value(), 0);
    }
    assert_eq!(game.dealer().value(), 0);
    let cards = dealt_cards(&game);
    assert_eq!(cards.len(), 8);
    assert!(cards.iter().all(|c| c.hidden()));
    for i in 0..cards.len() {
        for j in 0..i {
            assert_ne!(cards[i], cards[j]);
        }
    }
    assert_eq!(game.deck().drawn(), &cards);
    assert_eq!(game.deck().drawable().len(), 44);
    for card in &cards {
        assert!(!game.deck().drawable().contains(card));
    }
}

#[test]
fn no_players_still_gives_the_dealer_a_hand() {
    let game = Game::new(0).ok().unwrap();
    assert!(game.players().is_empty());
    assert_eq!(game.dealer().cards().len(), 2);
    assert_ne!(game.dealer().cards()[0], game.dealer().cards()[1]);
    assert_eq!(game.deck().drawable().len(), 50);
    assert_eq!(game.deck().drawn().len(), 2);
}

#[test]
fn twenty_five_players_use_the_whole_deck() {
    let game = Game::new(25).ok().unwrap();
    assert_eq!(game.players().len(), 25);
    assert_eq!(game.players()[24].name(), "Player 25");
    assert!(game.deck().drawable().is_empty());
    assert_eq!(game.deck().drawn().len(), 52);
    assert_eq!(dealt_cards(&game).len(), 52);
}

#[test]
fn twenty_six_players_exhaust_the_deck() {
    assert!(matches!(Game::new(26), Err(Error::DeckExhausted)));
    assert!(matches!(Game::new(100), Err(Error::DeckExhausted)));
    assert!(matches!(Game::new(255), Err(Error::DeckExhausted)));
}

#[test]
fn deal_hands_out_the_deck_in_order() {
    let deck = Deck::new();
    let fresh = deck.drawable().clone();
    let game = Game::deal(deck, 2).ok().unwrap();
    assert_eq!(game.dealer().cards(), &fresh[0..2].to_vec());
    assert_eq!(game.players()[0].cards(), &fresh[2..4].to_vec());
    assert_eq!(game.players()[1].cards(), &fresh[4..6].to_vec());
    assert_eq!(game.players()[0].name(), "Player 1");
    assert_eq!(game.players()[1].name(), "Player 2");
    assert_eq!(game.deck().drawable(), &fresh[6..].to_vec());
    assert_eq!(game.deck().drawn(), &fresh[0..6].to_vec());
}

#[test]
fn deal_from_a_short_deck_is_refused() {
    let mut deck = Deck::new();
    deck.retreive(47);
    assert!(matches!(Game::deal(deck, 2), Err(Error::DeckExhausted)));
    let mut deck = Deck::new();
    deck.retreive(46);
    let game = Game::deal(deck, 2).ok().unwrap();
    assert!(game.deck().drawable().is_empty());
    assert_eq!(game.deck().drawn().len(), 52);
    assert_eq!(game.players()[1].cards().len(), 2);
}

#[test]
fn reveal_all_shows_every_hand() {
    let mut game = Game::deal(Deck::new(), 1).ok().unwrap();
    let drawn = game.deck().drawn().clone();
    game.reveal_all();
    assert_eq!(game.dealer().value(), 5);
    assert_eq!(game.players()[0].value(), 9);
    assert!(dealt_cards(&game).iter().all(|c| !c.hidden()));
    assert_eq!(game.deck().drawn(), &drawn);
    assert!(game.deck().drawn().iter().all(|c| c.hidden()));
    game.reveal_all();
    assert_eq!(game.dealer().value(), 5);
    assert_eq!(game.players()[0].value(), 9);
}

#[test]
fn table_shows_the_dealer_then_the_players() {
    let game = Game::deal(Deck::new(), 2).ok().unwrap();
    let mut expected = game.dealer().show();
    expected.extend(game.players()[0].show());
    expected.extend(game.players()[1].show());
    assert_eq!(game.show(), expected);
    assert_eq!(game.show().len(), 18);
    assert_eq!(game.show()[1], "Dealer");
    assert_eq!(game.show()[7], "Player 1");
    assert_eq!(game.show()[13], "Player 2");
}

#[test]
fn first_turn_shows_the_table_face_down() {
    let mut game = Game::deal(Deck::new(), 1).ok().unwrap();
    let turn = advance(&mut game, Phase::Setup);
    assert_eq!(turn.next, Phase::RoundActive);
    assert_eq!(
        turn.screen,
        vec![
            "-------------------------------".to_string(),
            "Dealer".to_string(),
            "Card value: Hidden, Card suit: -".to_string(),
            "Card value: Hidden, Card suit: -".to_string(),
            "Current hand value 0".to_string(),
            "-------------------------------".to_string(),
            "-------------------------------".to_string(),
            "Player 1".to_string(),
            "Card value: Hidden, Card suit: -".to_string(),
            "Card value: Hidden, Card suit: -".to_string(),
            "Current hand value 0".to_string(),
            "-------------------------------".to_string(),
            "Press enter to continue".to_string(),
        ]
    );
    assert!(dealt_cards(&game).iter().all(|c| c.hidden()));
}

#[test]
fn later_turns_show_the_table_face_up() {
    let mut game = Game::deal(Deck::new(), 1).ok().unwrap();
    let first = advance(&mut game, Phase::Setup);
    let second = advance(&mut game, first.next);
    assert_eq!(second.next, Phase::RoundActive);
    assert_eq!(
        second.screen,
        vec![
            "-------------------------------".to_string(),
            "Dealer".to_string(),
            "Card value: 2, Card suit: C".to_string(),
            "Card value: 3, Card suit: C".to_string(),
            "Current hand value 5".to_string(),
            "-------------------------------".to_string(),
            "-------------------------------".to_string(),
            "Player 1".to_string(),
            "Card value: 4, Card suit: C".to_string(),
            "Card value: 5, Card suit: C".to_string(),
            "Current hand value 9".to_string(),
            "-------------------------------".to_string(),
            "Press enter to continue".to_string(),
        ]
    );
    let third = advance(&mut game, second.next);
    assert_eq!(third.next, Phase::RoundActive);
    assert_eq!(third.screen, second.screen);
}

#[test]
fn a_round_never_shows_a_hidden_card_again() {
    let mut game = Game::new(4).ok().unwrap();
    let mut phase = advance(&mut game, Phase::Setup).next;
    for _ in 0..3 {
        let turn = advance(&mut game, phase);
        assert!(turn.screen.iter().all(|line| !line.contains("Hidden")));
        assert_eq!(turn.screen.len(), 31);
        phase = turn.next;
    }
    for hand in hands_of(&game) {
        let points: u8 = hand.cards().iter().map(|c| c.value().value()).sum();
        assert_eq!(hand.value(), points);
    }
}
