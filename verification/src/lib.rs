//! A deck of cards: a draw pile and a discard pile over an arbitrary item
//! type, with configurable reshuffle and exhaustion policy.
//!
//! Items are never assumed to be duplicable: every operation moves them by
//! value between the piles and the caller.

pub mod deck;
pub mod laws;
pub mod playing_card;

pub use deck::Deck;
pub use deck::DeckBuilder;
