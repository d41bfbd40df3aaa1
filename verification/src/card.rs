use vstd::prelude::*;
use crate::error::Error;

verus! {

/// The rank of a card: a number card from 2 to 10, a face card or an ace.
#[derive(Copy, Clone, Debug, PartialEq, Eq, Structural)]
pub enum Value {
    Num(u8),
    Jack,
    Queen,
    King,
    Ace,
}

impl Value {
    /// A rank is well formed when it is one of the thirteen ranks of a deck:
    /// a number card carries a number from 2 to 10.
    pub open spec fn wf(self) -> bool {
        match self {
            Value::Num(n) => 2 <= n <= 10,
            _ => true,
        }
    }

    /// The code of a rank: 2 to 10 for the number cards, then 11 to 14 for
    /// jack, queen, king and ace.
    pub open spec fn code(self) -> int {
        match self {
            Value::Num(n) => n as int,
            Value::Jack => 11,
            Value::Queen => 12,
            Value::King => 13,
            Value::Ace => 14,
        }
    }

    /// The rank that a code stands for. Meaningful for codes from 2 to 14.
    pub open spec fn of_code(n: int) -> Value {
        if n == 11 {
            Value::Jack
        } else if n == 12 {
            Value::Queen
        } else if n == 13 {
            Value::King
        } else if n == 14 {
            Value::Ace
        } else {
            Value::Num(n as u8)
        }
    }

    /// Whether a code names a rank.
    pub open spec fn valid_code(n: int) -> bool {
        2 <= n <= 14
    }

    /// What a rank is shown as: "2" to "10", "J", "Q", "K" or "A".
    pub open spec fn glyph(self) -> Seq<char> {
        match self {
            Value::Num(n) => if n == 10 {
                seq!['1', '0']
            } else {
                seq![(('0' as u8 + n) as u8) as char]
            },
            Value::Jack => seq!['J'],
            Value::Queen => seq!['Q'],
            Value::King => seq!['K'],
            Value::Ace => seq!['A'],
        }
    }

    /// What a rank counts in blackjack: its number for a number card, 10 for
    /// a face card, and always 11 for an ace.
    pub open spec fn points(self) -> nat {
        match self {
            Value::Num(n) => n as nat,
            Value::Jack => 10,
            Value::Queen => 10,
            Value::King => 10,
            Value::Ace => 11,
        }
    }

    /// The rank with the given code.
    pub fn new(n: u8) -> (v: Value)
        requires
            Value::valid_code(n as int),
        ensures
            v == Value::of_code(n as int),
            v.wf(),
            v.code() == n,
    {
        match n {
            11 => Value::Jack,
            12 => Value::Queen,
            13 => Value::King,
            14 => Value::Ace,
            _ => Value::Num(n),
        }
    }

    /// The rank with the given code, or the reason why there is none.
    pub fn from_code(n: u8) -> (r: Result<Value, Error>)
        ensures
            Value::valid_code(n as int) ==> r == Ok::<Value, Error>(Value::of_code(n as int)),
            !Value::valid_code(n as int) ==> r == Err::<Value, Error>(Error::InvalidRankCode(n)),
    {
        if 2 <= n && n <= 14 {
            Ok(Value::new(n))
        } else {
            Err(Error::InvalidRankCode(n))
        }
    }

    /// The text that stands for this rank.
    pub fn show(&self) -> (s: &'static str)
        requires
            self.wf(),
        ensures
            s@ == self.glyph(),
    {
        proof {
            reveal_strlit("2");
            reveal_strlit("3");
            reveal_strlit("4");
            reveal_strlit("5");
            reveal_strlit("6");
            reveal_strlit("7");
            reveal_strlit("8");
            reveal_strlit("9");
            reveal_strlit("10");
            reveal_strlit("J");
            reveal_strlit("Q");
            reveal_strlit("K");
            reveal_strlit("A");
        }
        let s = match *self {
            Value::Num(2) => "2",
            Value::Num(3) => "3",
            Value::Num(4) => "4",
            Value::Num(5) => "5",
            Value::Num(6) => "6",
            Value::Num(7) => "7",
            Value::Num(8) => "8",
            Value::Num(9) => "9",
            Value::Num(_) => "10",
            Value::Jack => "J",
            Value::Queen => "Q",
            Value::King => "K",
            Value::Ace => "A",
        };
        assert(s@ =~= self.glyph());
        s
    }

    /// The points that this rank counts.
    pub fn value(&self) -> (p: u8)
        requires
            self.wf(),
        ensures
            p == self.points(),
            2 <= p <= 11,
    {
        match *self {
            Value::Num(n) => n,
            Value::Jack => 10,
            Value::Queen => 10,
            Value::King => 10,
            Value::Ace => 11,
        }
    }
}

/// The suit of a card.
#[derive(Copy, Clone, Debug, PartialEq, Eq, Structural)]
pub enum Suit {
    Clubs,
    Diamonds,
    Hearts,
    Spades,
}

impl Suit {
    /// The code of a suit: 0 for clubs, 1 for diamonds, 2 for hearts and 3
    /// for spades.
    pub open spec fn code(self) -> int {
        match self {
            Suit::Clubs => 0,
            Suit::Diamonds => 1,
            Suit::Hearts => 2,
            Suit::Spades => 3,
        }
    }

    /// The suit that a code stands for. Meaningful for codes from 0 to 3.
    pub open spec fn of_code(n: int) -> Suit {
        if n == 0 {
            Suit::Clubs
        } else if n == 1 {
            Suit::Diamonds
        } else if n == 2 {
            Suit::Hearts
        } else {
            Suit::Spades
        }
    }

    /// Whether a code names a suit.
    pub open spec fn valid_code(n: int) -> bool {
        0 <= n <= 3
    }

    /// The letter that a suit is shown as.
    pub open spec fn glyph(self) -> char {
        match self {
            Suit::Clubs => 'C',
            Suit::Diamonds => 'D',
            Suit::Hearts => 'H',
            Suit::Spades => 'S',
        }
    }

    /// The suit with the given code.
    pub fn new(n: u8) -> (s: Suit)
        requires
            Suit::valid_code(n as int),
        ensures
            s == Suit::of_code(n as int),
            s.code() == n,
    {
        match n {
            0 => Suit::Clubs,
            1 => Suit::Diamonds,
            2 => Suit::Hearts,
            _ => Suit::Spades,
        }
    }

    /// The suit with the given code, or the reason why there is none.
    pub fn from_code(n: u8) -> (r: Result<Suit, Error>)
        ensures
            Suit::valid_code(n as int) ==> r == Ok::<Suit, Error>(Suit::of_code(n as int)),
            !Suit::valid_code(n as int) ==> r == Err::<Suit, Error>(Error::InvalidSuitCode(n)),
    {
        if n <= 3 {
            Ok(Suit::new(n))
        } else {
            Err(Error::InvalidSuitCode(n))
        }
    }

    /// The letter of this suit as a text of one character.
    pub fn letter(&self) -> (s: &'static str)
        ensures
            s@ == seq![self.glyph()],
    {
        proof {
            reveal_strlit("C");
            reveal_strlit("D");
            reveal_strlit("H");
            reveal_strlit("S");
        }
        let s = match *self {
            Suit::Clubs => "C",
            Suit::Diamonds => "D",
            Suit::Hearts => "H",
            Suit::Spades => "S",
        };
        assert(s@ =~= seq![self.glyph()]);
        s
    }

    /// The letter that stands for this suit.
    pub fn value(&self) -> (c: char)
        ensures
            c == self.glyph(),
    {
        match *self {
            Suit::Clubs => 'C',
            Suit::Diamonds => 'D',
            Suit::Hearts => 'H',
            Suit::Spades => 'S',
        }
    }
}

/// A playing card: a rank, a suit, and whether it still lies face down.
///
/// A card is made face down and can only ever be turned face up.
#[derive(Copy, Clone, Debug, PartialEq, Eq, Structural)]
pub struct Card {
    value: Value,
    suit: Suit,
    hidden: bool,
}

impl Card {
    /// The rank of the card.
    pub closed spec fn spec_value(&self) -> Value {
        self.value
    }

    /// The suit of the card.
    pub closed spec fn spec_suit(&self) -> Suit {
        self.suit
    }

    /// Whether the card lies face down.
    pub closed spec fn spec_hidden(&self) -> bool {
        self.hidden
    }

    /// The card of the given rank and suit, face down.
    pub closed spec fn face_down(value: Value, suit: Suit) -> Card {
        Card { value, suit, hidden: true }
    }

    /// The same card, face up.
    pub closed spec fn face_up(self) -> Card {
        Card { value: self.value, suit: self.suit, hidden: false }
    }

    /// A card is well formed when its rank is.
    pub open spec fn wf(self) -> bool {
        self.spec_value().wf()
    }

    /// What the card counts while it lies as it does: nothing face down, the
    /// points of its rank face up.
    pub open spec fn visible_points(self) -> nat {
        if self.spec_hidden() {
            0
        } else {
            self.spec_value().points()
        }
    }

    /// The number of the card among the fifty-two of a deck, suit by suit and
    /// within a suit by rising rank.
    pub open spec fn index(self) -> int {
        self.spec_suit().code() * 13 + self.spec_value().code() - 2
    }

    /// A card is its rank, its suit and the side it shows, and nothing more.
    pub broadcast proof fn lemma_fields(value: Value, suit: Suit)
        ensures
            (#[trigger] Card::face_down(value, suit)).spec_value() == value,
            Card::face_down(value, suit).spec_suit() == suit,
            Card::face_down(value, suit).spec_hidden(),
    {
    }

    /// Turning a card face up changes the side it shows and nothing else, and
    /// a card that is face up already stays as it is.
    pub broadcast proof fn lemma_face_up(self)
        ensures
            (#[trigger] self.face_up()).spec_value() == self.spec_value(),
            self.face_up().spec_suit() == self.spec_suit(),
            !self.face_up().spec_hidden(),
            !self.spec_hidden() ==> self.face_up() == self,
            self.face_up().face_up() == self.face_up(),
    {
    }

    /// The line that describes a card that lies face down, whichever it is.
    pub open spec fn hidden_line() -> Seq<char> {
        "Card value: "@ + "Hidden"@ + ", Card suit: "@ + seq!['-']
    }

    /// A card that was turned face up stays face up however often it is
    /// turned again, and from then on its line names its rank and suit: it
    /// is never again the line of a hidden card.
    pub proof fn lemma_reveal_is_final(self)
        requires
            self.wf(),
        ensures
            !self.face_up().spec_hidden(),
            self.face_up().face_up() == self.face_up(),
            self.face_up().line() == "Card value: "@ + self.spec_value().glyph()
                + ", Card suit: "@ + seq![self.spec_suit().glyph()],
            self.face_up().line() != Card::hidden_line(),
            self.face_up().face_up().line() == self.face_up().line(),
    {
        reveal_strlit("Card value: ");
        reveal_strlit("Hidden");
        let shown = self.face_up().line();
        let glyph = self.spec_value().glyph();
        assert(glyph.len() >= 1 && glyph[0] != 'H');
        assert(shown[12] == glyph[0]);
        assert(Card::hidden_line()[12] == 'H');
    }

    /// Two cards of one rank and one suit that show the same side are the
    /// same card.
    pub proof fn lemma_equal(self, other: Card)
        requires
            self.spec_value() == other.spec_value(),
            self.spec_suit() == other.spec_suit(),
            self.spec_hidden() == other.spec_hidden(),
        ensures
            self == other,
    {
    }

    /// The line of text that describes the card: its rank and suit once it
    /// is face up, and before that only that it is hidden.
    pub open spec fn line(self) -> Seq<char> {
        if self.spec_hidden() {
            "Card value: "@ + "Hidden"@ + ", Card suit: "@ + seq!['-']
        } else {
            "Card value: "@ + self.spec_value().glyph() + ", Card suit: "@ + seq![
                self.spec_suit().glyph(),
            ]
        }
    }

    /// A new card, face down.
    pub fn new(value: Value, suit: Suit) -> (c: Card)
        ensures
            c == Card::face_down(value, suit),
            c.spec_value() == value,
            c.spec_suit() == suit,
            c.spec_hidden(),
    {
        Card { value, suit, hidden: true }
    }

    /// Turns the card face up. On a card that is face up already this changes
    /// nothing.
    pub fn reveal_face(&mut self)
        ensures
            *final(self) == old(self).face_up(),
            !final(self).spec_hidden(),
            final(self).spec_value() == old(self).spec_value(),
            final(self).spec_suit() == old(self).spec_suit(),
    {
        self.hidden = false;
    }

    /// The line of text that describes the card as it lies.
    pub fn show(&self) -> (text: String)
        requires
            !self.spec_hidden() ==> self.wf(),
        ensures
            text@ == self.line(),
    {
        let mut text = String::from_str("Card value: ");
        if self.hidden {
            text.append("Hidden");
            text.append(", Card suit: ");
            text.append("-");
            proof {
                reveal_strlit("-");
                assert("-"@ =~= seq!['-']);
            }
        } else {
            text.append(self.value.show());
            text.append(", Card suit: ");
            text.append(self.suit.letter());
        }
        text
    }

    /// The rank of the card.
    #[verifier::when_used_as_spec(spec_value)]
    pub fn value(&self) -> (v: Value)
        ensures
            v == self.spec_value(),
    {
        self.value
    }

    /// The suit of the card.
    #[verifier::when_used_as_spec(spec_suit)]
    pub fn suit(&self) -> (s: Suit)
        ensures
            s == self.spec_suit(),
    {
        self.suit
    }

    /// Whether the card lies face down.
    #[verifier::when_used_as_spec(spec_hidden)]
    pub fn hidden(&self) -> (h: bool)
        ensures
            h == self.spec_hidden(),
    {
        self.hidden
    }
}

} // verus!
