//! The ways a spawn or a move can end other than by succeeding.

use vstd::prelude::*;

verus! {

/// Why a spawn or a move did not go through. The last two are signals for
/// the match rather than faults: a battle has to be fought, or the portal
/// has been found.
#[derive(PartialEq, Eq, Structural, Debug, Copy, Clone)]
pub enum GameError {
    /// The targeted cell cannot take what was to be placed on it.
    InvalidCoordinates,
    /// The step leaves the board.
    Outside,
    /// The cell holds a glyph that stands for nothing on the board.
    InvalidField,
    /// The direction is none of the four tokens.
    InvalidDirection,
    /// The targeted cell holds another player.
    AnotherPlayer,
    /// The targeted cell holds the portal.
    Portal,
}

impl GameError {
    /// The message shown to the players for this outcome.
    pub fn description(&self) -> (text: &'static str)
        ensures
            text@ == self.message(),
    {
        match self {
            GameError::InvalidCoordinates => "Invalid coordinates!\n",
            GameError::InvalidDirection => "Invalid direction! Allowed: up, down, left, right.\n",
            GameError::Outside => "Coordinates outside the field!\n",
            GameError::InvalidField => "Invalid field! You can't reach it.\n",
            GameError::AnotherPlayer => "Battle!",
            GameError::Portal => "Portal has been found!",
        }
    }

    /// The text of `description`, as a sequence of characters.
    pub open spec fn message(&self) -> Seq<char> {
        match self {
            GameError::InvalidCoordinates => "Invalid coordinates!\n"@,
            GameError::InvalidDirection => "Invalid direction! Allowed: up, down, left, right.\n"@,
            GameError::Outside => "Coordinates outside the field!\n"@,
            GameError::InvalidField => "Invalid field! You can't reach it.\n"@,
            GameError::AnotherPlayer => "Battle!"@,
            GameError::Portal => "Portal has been found!"@,
        }
    }
}

} // verus!
