//! A playing-card deck with a verified core.
//!
//! The library models a standard 52-card French deck: four suits, thirteen
//! ranks, one card for every combination. Construction, filtering, sorting
//! and shuffling are specified against a mathematical view of the deck as a
//! sequence of cards.

pub mod deck;
pub mod laws;

pub use deck::Card;
pub use deck::FrenchDeck;
pub use deck::Rank;
pub use deck::Suit;
pub use deck::spades_high_rank;
