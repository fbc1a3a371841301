//! The game state of a Klondike solitaire: cards parsed from their image
//! names, a dealt tableau, the draw/waste cycle and the two-click move
//! protocol, each with its contract proved.

pub mod build_move;
pub mod card;
pub mod deck;
pub mod solitaire;
pub mod zones;

pub use card::{Card, Suit};
pub use solitaire::{Selection, Solitaire};
