//! The failures that a request can end in.

use crate::card::Reason;
use vstd::prelude::*;

verus! {

/// Why a request was refused. A refused request leaves the state it was
/// aimed at unchanged.
#[derive(PartialEq, Eq, Clone, Copy, Debug, Structural)]
pub enum GameError {
    /// No room has the given identity.
    RoomNotFound,
    /// The player holds no seat in the room.
    PlayerNotFound,
    /// Fewer than two players are seated.
    NotEnoughPlayers,
    /// The cards of the room have not been dealt yet.
    NotActive,
    /// Another player is to move.
    NotYourTurn,
    /// The card identity names no card of the catalog.
    UnknownCard,
    /// A wild card was played without a chosen color.
    MissingColor,
    /// The player tried to pass without having drawn this turn.
    MustDraw,
    /// There is no pending effect to accept a penalty for.
    NoPenalty,
    /// The move breaks a matching rule.
    Rule(Reason),
    /// Not enough cards are left to draw or deal from.
    ResourceExhaustion,
}

impl GameError {
    /// The text reported to the requesting client.
    pub open spec fn text(self) -> Seq<char> {
        match self {
            GameError::RoomNotFound => "Room does not exist"@,
            GameError::PlayerNotFound => "Player not in room"@,
            GameError::NotEnoughPlayers => "Not enough players"@,
            GameError::NotActive => "Game has not started"@,
            GameError::NotYourTurn => "Not your turn"@,
            GameError::UnknownCard => "Unknown card"@,
            GameError::MissingColor => "You must choose a color"@,
            GameError::MustDraw => "You must draw one card"@,
            GameError::NoPenalty => "No penalty to accept"@,
            GameError::Rule(reason) => reason.text(),
            GameError::ResourceExhaustion => "No cards left"@,
        }
    }

    pub fn message(&self) -> (s: String)
        ensures
            s@ == self.text(),
    {
        match self {
            GameError::RoomNotFound => String::from_str("Room does not exist"),
            GameError::PlayerNotFound => String::from_str("Player not in room"),
            GameError::NotEnoughPlayers => String::from_str("Not enough players"),
            GameError::NotActive => String::from_str("Game has not started"),
            GameError::NotYourTurn => String::from_str("Not your turn"),
            GameError::UnknownCard => String::from_str("Unknown card"),
            GameError::MissingColor => String::from_str("You must choose a color"),
            GameError::MustDraw => String::from_str("You must draw one card"),
            GameError::NoPenalty => String::from_str("No penalty to accept"),
            GameError::Rule(reason) => reason.message(),
            GameError::ResourceExhaustion => String::from_str("No cards left"),
        }
    }
}

} // verus!
