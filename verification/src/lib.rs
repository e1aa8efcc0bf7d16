//! Session engine for an Uno-style card game.
//!
//! The crate holds the card catalog and the matching rules, the state
//! machine of one room (seating, deck, board, turn pointer, pending
//! effects) and the registry that owns every room and user. Each
//! executable function carries a contract over the mathematical view of
//! the state it works on.

pub mod card;
pub mod error;
pub mod game;
pub mod room;
pub mod uno;
pub mod user;
