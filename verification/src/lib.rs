//! A blackjack table: cards, a deck that is shuffled and dealt from, hands
//! with a cached point total, and the game that deals the opening hands and
//! advances through its rounds.
//!
//! Everything here works on plain values. Reading the keyboard and writing to
//! the terminal are left to the caller, which is handed the lines to print.

pub mod card;
pub mod deck;
pub mod error;
pub mod game;
pub mod hand;
pub mod input;
pub mod round;
pub mod shuffle;
pub mod text;
