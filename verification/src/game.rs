use vstd::prelude::*;
use crate::card::Card;
use crate::deck::{
    fresh_cards, lemma_draw_conserves, lemma_wf_conserved, Deck, DeckView, DECK_SIZE,
};
use crate::error::Error;
use crate::hand::{
    all_face_up, countable, lemma_hidden_count_nothing, lemma_visible_points_bound, visible_points,
    Hand, HandView,
};
use crate::text::{append_decimal, decimal};

verus! {

/// How many cards the opening deal takes: two for the dealer and two for each
/// player.
pub open spec fn cards_needed(n_players: int) -> int {
    2 + 2 * n_players
}

/// The name of the player at place `i`, counted from 0: the players are
/// numbered from 1.
pub open spec fn player_name(i: int) -> Seq<char> {
    "Player "@ + decimal((i + 1) as nat)
}

/// Two cards of the same rank and suit, whichever side each shows.
pub open spec fn same_card(a: Card, b: Card) -> bool {
    a.spec_value() == b.spec_value() && a.spec_suit() == b.spec_suit()
}

/// The dealer's opening hand from a deck: its first two cards.
pub open spec fn dealt_dealer(d: DeckView) -> HandView {
    HandView { name: "Dealer"@, cards: d.drawable.subrange(0, 2), value: 0 }
}

/// The opening hand of the player at place `i` from a deck: the two cards
/// that follow those of the dealer and of the players before.
pub open spec fn dealt_player(d: DeckView, i: int) -> HandView {
    HandView {
        name: player_name(i),
        cards: d.drawable.subrange(2 + 2 * i, 4 + 2 * i),
        value: 0,
    }
}

/// The game that the opening deal makes of a deck for `n` players.
pub open spec fn dealt(d: DeckView, n: nat) -> GameView {
    GameView {
        deck: d.after_draw(cards_needed(n as int)),
        dealer: dealt_dealer(d),
        players: Seq::new(n, |i: int| dealt_player(d, i)),
    }
}

/// The cards are those of a new deck in some order.
pub open spec fn is_shuffled_deck(order: Seq<Card>) -> bool {
    order.to_multiset() == fresh_cards().to_multiset()
}

/// The game that the opening deal makes of a full deck whose cards lie in the
/// given order.
pub open spec fn dealt_from(order: Seq<Card>, n: nat) -> GameView {
    dealt(DeckView { drawable: order, drawn: Seq::empty() }, n)
}

/// What holds of a game for `n` players right after the opening deal from a
/// full deck, whatever the order of the deck was: the hands are named, hold
/// two cards each, all face down, and show a total of nothing; the cards of
/// the hands are the cards that left the deck, in their order; and the deck
/// keeps the rest of its fifty-two cards.
pub open spec fn is_opening(g: GameView, n: nat) -> bool {
    &&& g.wf()
    &&& g.players.len() == n
    &&& g.deck.drawn.len() == cards_needed(n as int)
    &&& g.deck.drawable.len() == 52 - cards_needed(n as int)
    &&& g.dealer.name == "Dealer"@
    &&& g.dealer.cards.len() == 2
    &&& g.dealer.value == 0
    &&& forall|i: int|
        0 <= i < n ==> (#[trigger] g.players[i]).name == player_name(i) && g.players[i].cards.len()
            == 2 && g.players[i].value == 0
    &&& forall|k: int|
        0 <= k < cards_needed(n as int) ==> (#[trigger] g.dealt_card(k)) == g.deck.drawn[k]
            && g.dealt_card(k).spec_hidden()
}

/// The lines that describe some hands, one hand after the other.
pub open spec fn hands_lines(hands: Seq<HandView>) -> Seq<Seq<char>>
    decreases hands.len(),
{
    if hands.len() == 0 {
        Seq::empty()
    } else {
        hands_lines(hands.drop_last()) + hands.last().lines()
    }
}

/// A game of blackjack: the deck, the dealer's hand and the players' hands.
pub struct Game {
    deck: Deck,
    dealer: Hand,
    players: Vec<Hand>,
}

/// What a game holds.
pub struct GameView {
    pub deck: DeckView,
    pub dealer: HandView,
    pub players: Seq<HandView>,
}

impl View for Game {
    type V = GameView;

    closed spec fn view(&self) -> GameView {
        GameView {
            deck: self.deck@,
            dealer: self.dealer@,
            players: self.players@.map_values(|h: Hand| h@),
        }
    }
}

impl HandView {
    /// The hand with every card face up and its total up to date.
    pub open spec fn revealed(self) -> HandView {
        HandView {
            name: self.name,
            cards: all_face_up(self.cards),
            value: visible_points(all_face_up(self.cards)),
        }
    }
}

impl GameView {
    /// How many cards lie in the hands.
    pub open spec fn dealt_len(self) -> int {
        cards_needed(self.players.len() as int)
    }

    /// The card that was dealt at turn `k`: the dealer's two cards come
    /// first, then those of each player in turn.
    pub open spec fn dealt_card(self, k: int) -> Card {
        if k < 2 {
            self.dealer.cards[k]
        } else {
            self.players[(k - 2) / 2].cards[(k - 2) % 2]
        }
    }

    /// Where the cards of the hands begin among the cards that left the deck.
    pub open spec fn dealt_base(self) -> int {
        self.deck.drawn.len() - self.dealt_len()
    }

    /// The deck is a deck, each hand holds two cards, and the cards of the
    /// hands are the last that left the deck, in the order in which they
    /// left.
    pub open spec fn wf(self) -> bool {
        &&& self.deck.wf()
        &&& self.dealer.cards.len() == 2
        &&& forall|i: int| 0 <= i < self.players.len() ==> (#[trigger] self.players[i]).cards.len() == 2
        &&& self.dealt_base() >= 0
        &&& forall|k: int|
            0 <= k < self.dealt_len() ==> same_card(
                #[trigger] self.dealt_card(k),
                self.deck.drawn[self.dealt_base() + k],
            )
    }

    /// The game with every card of every hand face up and the totals up to
    /// date. The deck is as it was.
    pub open spec fn revealed(self) -> GameView {
        GameView {
            deck: self.deck,
            dealer: self.dealer.revealed(),
            players: self.players.map_values(|h: HandView| h.revealed()),
        }
    }

    /// The lines that describe the table: the dealer's hand, then the hands
    /// of the players in turn.
    pub open spec fn lines(self) -> Seq<Seq<char>> {
        self.dealer.lines() + hands_lines(self.players)
    }
}

/// In a game, every card in a hand is a card of the deck, no two places in
/// the hands hold the same card, no hand counts more than twenty-two points,
/// and the deck and the hands account for fifty-two cards.
pub proof fn lemma_wf_hands(g: GameView)
    requires
        g.wf(),
    ensures
        g.deck.drawable.len() + g.deck.drawn.len() == 52,
        g.dealt_len() <= g.deck.drawn.len(),
        forall|k: int| 0 <= k < g.dealt_len() ==> (#[trigger] g.dealt_card(k)).wf(),
        forall|k1: int, k2: int|
            0 <= k1 < g.dealt_len() && 0 <= k2 < g.dealt_len() && k1 != k2 ==> !same_card(
                #[trigger] g.dealt_card(k1),
                #[trigger] g.dealt_card(k2),
            ),
        forall|k: int, i: int|
            0 <= k < g.dealt_len() && 0 <= i < g.deck.drawable.len() ==> !same_card(
                #[trigger] g.dealt_card(k),
                #[trigger] g.deck.drawable[i],
            ),
{
    lemma_wf_conserved(g.deck);
    let base = g.dealt_base();
    assert forall|k: int| 0 <= k < g.dealt_len() implies (#[trigger] g.dealt_card(k)).wf() by {
        assert(same_card(g.dealt_card(k), g.deck.drawn[base + k]));
        assert(g.deck.drawn[base + k].wf());
    }
    assert forall|k1: int, k2: int|
        0 <= k1 < g.dealt_len() && 0 <= k2 < g.dealt_len() && k1 != k2 implies !same_card(
        #[trigger] g.dealt_card(k1),
        #[trigger] g.dealt_card(k2),
    ) by {
        let a = g.deck.drawn[base + k1];
        let b = g.deck.drawn[base + k2];
        assert(same_card(g.dealt_card(k1), a));
        assert(same_card(g.dealt_card(k2), b));
        assert(a.spec_hidden() && b.spec_hidden());
        if same_card(a, b) {
            a.lemma_equal(b);
        }
    }
    assert forall|k: int, i: int|
        0 <= k < g.dealt_len() && 0 <= i < g.deck.drawable.len() implies !same_card(
        #[trigger] g.dealt_card(k),
        #[trigger] g.deck.drawable[i],
    ) by {
        let a = g.deck.drawn[base + k];
        let b = g.deck.drawable[i];
        assert(same_card(g.dealt_card(k), a));
        assert(a.spec_hidden() && b.spec_hidden());
        if same_card(a, b) {
            a.lemma_equal(b);
        }
    }
}

/// The opening deal from a deck that holds enough cards makes a game: the
/// dealer and each of the players hold two cards, all face down, so that
/// every total is nothing and up to date; the cards of the hands are the
/// first of the deck in their order; and the deck has lost just these.
pub proof fn lemma_dealt_wf(d: DeckView, n: nat)
    requires
        d.wf(),
        cards_needed(n as int) <= d.drawable.len(),
    ensures
        dealt(d, n).wf(),
        dealt(d, n).players.len() == n,
        dealt(d, n).dealer.cards.len() == 2,
        dealt(d, n).dealer.current(),
        forall|i: int|
            0 <= i < n ==> (#[trigger] dealt(d, n).players[i]).cards.len() == 2 && dealt(
                d,
                n,
            ).players[i].current(),
        forall|k: int|
            0 <= k < cards_needed(n as int) ==> (#[trigger] dealt(d, n).dealt_card(k))
                == d.drawable[k] && dealt(d, n).dealt_card(k).spec_hidden(),
        dealt(d, n).deck.drawable.len() == d.drawable.len() - cards_needed(n as int),
        dealt(d, n).deck.drawn.len() == d.drawn.len() + cards_needed(n as int),
{
    let g = dealt(d, n);
    let m = cards_needed(n as int);
    lemma_wf_conserved(d);
    lemma_draw_conserves(d, m);
    assert(g.dealt_base() == d.drawn.len());
    assert forall|k: int| 0 <= k < m implies (#[trigger] g.dealt_card(k)) == d.drawable[k]
        && g.dealt_card(k).spec_hidden() by {
        if k >= 2 {
            let i = (k - 2) / 2;
            let j = (k - 2) % 2;
            assert(g.players[i] == dealt_player(d, i));
            assert(g.players[i].cards[j] == d.drawable[2 + 2 * i + j]);
        }
    }
    assert forall|k: int| 0 <= k < g.dealt_len() implies same_card(
        #[trigger] g.dealt_card(k),
        g.deck.drawn[g.dealt_base() + k],
    ) by {
        assert(g.deck.drawn[d.drawn.len() + k] == d.drawable.take(m)[k]);
    }
    lemma_hidden_count_nothing(g.dealer.cards);
    assert forall|i: int| 0 <= i < n implies (#[trigger] g.players[i]).cards.len() == 2
        && g.players[i].current() by {
        assert(g.players[i] == dealt_player(d, i));
        lemma_hidden_count_nothing(g.players[i].cards);
    }
}

/// The opening deal from a full deck, in whatever order its cards lie, makes
/// a game in its opening state.
pub proof fn lemma_dealt_from_opening(order: Seq<Card>, n: nat)
    requires
        is_shuffled_deck(order),
        cards_needed(n as int) <= 52,
    ensures
        is_opening(dealt_from(order, n), n),
{
    let d = DeckView { drawable: order, drawn: Seq::empty() };
    assert(d.all() =~= order);
    lemma_wf_conserved(d);
    lemma_dealt_wf(d, n);
    let g = dealt(d, n);
    let m = cards_needed(n as int);
    assert forall|i: int| 0 <= i < n implies (#[trigger] g.players[i]).name == player_name(i)
        && g.players[i].cards.len() == 2 && g.players[i].value == 0 by {
        assert(g.players[i] == dealt_player(d, i));
    }
    assert forall|k: int| 0 <= k < m implies (#[trigger] g.dealt_card(k)) == g.deck.drawn[k]
        && g.dealt_card(k).spec_hidden() by {
        assert(g.deck.drawn[k] == d.drawable.take(m)[k]);
    }
}

/// Turning every card face up twice is the same as turning it once.
pub proof fn lemma_revealed_twice(g: GameView)
    ensures
        g.revealed().revealed() == g.revealed(),
{
    broadcast use Card::lemma_face_up;

    let once = g.revealed();
    let twice = once.revealed();
    assert(all_face_up(all_face_up(g.dealer.cards)) =~= all_face_up(g.dealer.cards));
    assert forall|i: int| 0 <= i < g.players.len() implies twice.players[i]
        == once.players[i] by {
        assert(all_face_up(all_face_up(g.players[i].cards)) =~= all_face_up(g.players[i].cards));
    }
    assert(twice.players =~= once.players);
}

/// Turning the cards of the hands face up leaves the game a game.
pub proof fn lemma_revealed_wf(g: GameView)
    requires
        g.wf(),
    ensures
        g.revealed().wf(),
        g.revealed().dealer.current(),
        forall|i: int|
            0 <= i < g.players.len() ==> (#[trigger] g.revealed().players[i]).current(),
        forall|k: int|
            0 <= k < g.dealt_len() ==> (#[trigger] g.revealed().dealt_card(k)) == g.dealt_card(
                k,
            ).face_up(),
{
    broadcast use Card::lemma_face_up;

    let r = g.revealed();
    assert forall|k: int| 0 <= k < g.dealt_len() implies (#[trigger] r.dealt_card(k))
        == g.dealt_card(k).face_up() by {
        if k >= 2 {
            let i = (k - 2) / 2;
            assert(r.players[i] == g.players[i].revealed());
            assert(g.players[i].cards.len() == 2);
        }
    }
    assert forall|i: int| 0 <= i < r.players.len() implies (#[trigger] r.players[i]).cards.len()
        == 2 by {
        assert(g.players[i].cards.len() == 2);
    }
    assert forall|k: int| 0 <= k < r.dealt_len() implies same_card(
        #[trigger] r.dealt_card(k),
        r.deck.drawn[r.dealt_base() + k],
    ) by {
        assert(same_card(g.dealt_card(k), g.deck.drawn[g.dealt_base() + k]));
    }
}

/// A hand of two cards of a deck can be turned face up: its total fits.
proof fn lemma_two_cards_fit(cards: Seq<Card>)
    requires
        cards.len() == 2,
        cards[0].wf(),
        cards[1].wf(),
    ensures
        countable(cards),
        countable(all_face_up(cards)),
        visible_points(cards) <= 22,
        visible_points(all_face_up(cards)) <= 22,
{
    broadcast use Card::lemma_face_up;

    lemma_visible_points_bound(cards);
    lemma_visible_points_bound(all_face_up(cards));
}

impl Game {
    /// The game is well formed: see [`GameView::wf`].
    pub open spec fn wf(&self) -> bool {
        self@.wf()
    }

    /// A game for the given number of players, from a new deck that was
    /// shuffled. Fifty-two cards are enough for up to twenty-five players;
    /// for more, no game is made.
    pub fn new(n_players: u8) -> (r: Result<Game, Error>)
        ensures
            cards_needed(n_players as int) > 52 ==> r is Err && r->Err_0 == Error::DeckExhausted,
            cards_needed(n_players as int) <= 52 ==> r is Ok && is_opening(
                r->Ok_0@,
                n_players as nat,
            ),
            cards_needed(n_players as int) <= 52 ==> exists|order: Seq<Card>|
                is_shuffled_deck(order) && r->Ok_0@ == #[trigger] dealt_from(
                    order,
                    n_players as nat,
                ),
    {
        if 2 + 2 * (n_players as usize) > DECK_SIZE {
            return Err(Error::DeckExhausted);
        }
        let mut deck: Deck = Deck::new();
        deck.shuffle();
        proof {
            lemma_wf_conserved(deck@);
            let order = deck@.drawable;
            assert(fresh_cards() + Seq::<Card>::empty() =~= fresh_cards());
            assert(order + Seq::<Card>::empty() =~= order);
            assert(deck@ =~= (DeckView { drawable: order, drawn: Seq::empty() }));
            assert(is_shuffled_deck(order));
        }
        let ghost order = deck@.drawable;
        let r = Game::deal(deck, n_players);
        proof {
            assert(r is Ok);
            assert(r->Ok_0@ == dealt_from(order, n_players as nat));
            lemma_dealt_from_opening(order, n_players as nat);
        }
        r
    }

    /// The opening deal from a given deck: two cards to the dealer, then two
    /// to each player in turn, as "Player 1", "Player 2" and so on. Where the
    /// deck holds too few cards for that, no game is made.
    pub fn deal(deck: Deck, n_players: u8) -> (r: Result<Game, Error>)
        requires
            deck.wf(),
        ensures
            cards_needed(n_players as int) > deck@.drawable.len() ==> r is Err && r->Err_0
                == Error::DeckExhausted,
            cards_needed(n_players as int) <= deck@.drawable.len() ==> r is Ok && r->Ok_0@
                == dealt(deck@, n_players as nat) && r->Ok_0.wf(),
    {
        let mut deck = deck;
        let ghost start = deck@;
        let needed: usize = 2 + 2 * (n_players as usize);
        if needed > deck.remaining() {
            return Err(Error::DeckExhausted);
        }
        proof {
            lemma_wf_conserved(start);
            reveal_strlit("Dealer");
        }
        let dealer_cards = deck.retreive(2);
        proof {
            assert(dealer_cards@ =~= start.drawable.subrange(0, 2));
            lemma_hidden_count_nothing(dealer_cards@);
        }
        let dealer = Hand::new(String::from_str("Dealer"), dealer_cards);
        assert(dealer@ == dealt_dealer(start));
        let mut players: Vec<Hand> = Vec::new();
        let mut i: u8 = 0;
        while i < n_players
            invariant
                0 <= i <= n_players,
                start.wf(),
                cards_needed(n_players as int) <= start.drawable.len(),
                forall|k: int|
                    0 <= k < start.drawable.len() ==> (#[trigger] start.drawable[k]).spec_hidden(),
                deck.wf(),
                deck@.drawable == start.drawable.skip(cards_needed(i as int)),
                deck@.drawn == start.drawn + start.drawable.take(cards_needed(i as int)),
                players@.len() == i,
                forall|k: int| 0 <= k < i ==> (#[trigger] players@[k])@ == dealt_player(start, k),
            decreases n_players - i,
        {
            let mut name = String::from_str("Player ");
            append_decimal(&mut name, i + 1);
            let ghost before = deck@;
            let cards = deck.retreive(2);
            proof {
                let at = cards_needed(i as int);
                assert(cards@ =~= start.drawable.subrange(at, at + 2));
                lemma_hidden_count_nothing(cards@);
                assert(deck@.drawable =~= start.drawable.skip(at + 2));
                assert(deck@.drawn =~= start.drawn + start.drawable.take(at + 2));
            }
            let player = Hand::new(name, cards);
            assert(player@ == dealt_player(start, i as int));
            players.push(player);
            i += 1;
        }
        let game = Game { deck, dealer, players };
        proof {
            let n = n_players as nat;
            assert(game@.players =~= dealt(start, n).players);
            assert(game@.deck =~= dealt(start, n).deck);
            assert(game@ =~= dealt(start, n));
            lemma_dealt_wf(start, n);
        }
        Ok(game)
    }

    /// Turns every card of every hand face up and brings each total up to
    /// date. The deck is not touched.
    pub fn reveal_all(&mut self)
        requires
            old(self).wf(),
        ensures
            final(self)@ == old(self)@.revealed(),
            final(self).wf(),
    {
        let ghost before = self@;
        proof {
            lemma_wf_hands(before);
            assert(before.dealt_card(0) == before.dealer.cards[0]);
            assert(before.dealt_card(1) == before.dealer.cards[1]);
            lemma_two_cards_fit(before.dealer.cards);
        }
        self.dealer.reveal_all();
        let mut i: usize = 0;
        while i < self.players.len()
            invariant
                0 <= i <= self.players@.len(),
                before.wf(),
                self.players@.len() == before.players.len(),
                self.deck@ == before.deck,
                self.dealer@ == before.dealer.revealed(),
                forall|k: int| 0 <= k < i ==> (#[trigger] self.players@[k])@ == before.players[k].revealed(),
                forall|k: int| i <= k < self.players@.len() ==> (#[trigger] self.players@[k])@ == before.players[k],
            decreases self.players@.len() - i,
        {
            proof {
                lemma_wf_hands(before);
                let h = before.players[i as int];
                assert(h.cards.len() == 2);
                assert(before.dealt_card(2 + 2 * i) == h.cards[0]);
                assert(before.dealt_card(3 + 2 * i) == h.cards[1]);
                lemma_two_cards_fit(h.cards);
            }
            self.players[i].reveal_all();
            assert(self.players@[i as int]@ == before.players[i as int].revealed());
            i += 1;
        }
        proof {
            assert(self@.players =~= before.revealed().players);
            assert(self@ =~= before.revealed());
            lemma_revealed_wf(before);
        }
    }

    /// The lines that describe the table: the dealer's hand, then the hands
    /// of the players in turn.
    pub fn show(&self) -> (lines: Vec<String>)
        requires
            self.wf(),
        ensures
            lines@.map_values(|s: String| s@) == self@.lines(),
    {
        proof {
            lemma_wf_hands(self@);
            assert(self@.dealt_card(0) == self@.dealer.cards[0]);
            assert(self@.dealt_card(1) == self@.dealer.cards[1]);
            lemma_two_cards_fit(self@.dealer.cards);
        }
        let mut lines = self.dealer.show();
        let mut i: usize = 0;
        assert(hands_lines(self@.players.take(0)) =~= Seq::<Seq<char>>::empty());
        while i < self.players.len()
            invariant
                0 <= i <= self.players@.len(),
                self.wf(),
                lines@.map_values(|s: String| s@) == self@.dealer.lines() + hands_lines(
                    self@.players.take(i as int),
                ),
            decreases self.players@.len() - i,
        {
            proof {
                lemma_wf_hands(self@);
                let h = self@.players[i as int];
                assert(h.cards.len() == 2);
                assert(self@.dealt_card(2 + 2 * i) == h.cards[0]);
                assert(self@.dealt_card(3 + 2 * i) == h.cards[1]);
                lemma_two_cards_fit(h.cards);
            }
            let ghost shown = lines@.map_values(|s: String| s@);
            let mut block = self.players[i].show();
            let ghost added = block@.map_values(|s: String| s@);
            lines.append(&mut block);
            proof {
                let upto = self@.players.take(i + 1);
                assert(upto.drop_last() =~= self@.players.take(i as int));
                assert(upto.last() == self@.players[i as int]);
                assert(lines@.map_values(|s: String| s@) =~= shown + added);
                assert(shown + added =~= self@.dealer.lines() + hands_lines(upto));
            }
            i += 1;
        }
        assert(self@.players.take(i as int) =~= self@.players);
        lines
    }

    /// The deck of the game.
    pub fn deck(&self) -> (deck: &Deck)
        ensures
            deck@ == self@.deck,
    {
        &self.deck
    }

    /// The dealer's hand.
    pub fn dealer(&self) -> (hand: &Hand)
        ensures
            hand@ == self@.dealer,
    {
        &self.dealer
    }

    /// The players' hands, in their order.
    pub fn players(&self) -> (hands: &Vec<Hand>)
        ensures
            hands@.map_values(|h: Hand| h@) == self@.players,
    {
        &self.players
    }
}

} // verus!
