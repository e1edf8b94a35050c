//! Deck, hand and turn bookkeeping for a game of Uno.
//!
//! Every card ever in play comes from one standard 108-card deck, and the
//! game keeps that multiset intact while cards move between the draw pile,
//! the hands and the discard pile.

pub mod card;
pub mod deck;
pub mod game;
mod random;
pub mod setup;

pub use card::{light_text, Card, Color, Rank};
pub use deck::Deck;
pub use game::{get_current_hand, Game, GameStatus, Hand, Player};
pub use setup::{check_player_count, read_player_count, CountError};
