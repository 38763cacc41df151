//! Rules of a rummy-style card game played with two decks: ranks and cards,
//! the adjacency of cards within a run, the validation of melds, and the
//! dealing of a fresh game.

pub mod rank;
pub mod card;
pub mod meld;
pub mod deck;
pub mod game;
