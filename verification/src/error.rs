use vstd::prelude::*;

verus! {

/// Why a request to the library was turned down.
#[derive(Copy, Clone, Debug, PartialEq, Eq, Structural)]
pub enum Error {
    /// A rank was asked for by a code outside `2..=14`.
    InvalidRankCode(u8),
    /// A suit was asked for by a code outside `0..=3`.
    InvalidSuitCode(u8),
    /// More cards were asked for than the deck can still give.
    DeckExhausted,
    /// A line of input did not name a number of players.
    InvalidPlayerCount,
}

} // verus!
