//! A turn-based labyrinth board game engine: the grid, the players, move
//! resolution and the match that ties them together.

use vstd::prelude::*;

pub mod chance;
pub mod controllers;
pub mod directions;
pub mod flood;
pub mod game;
pub mod grid;
pub mod map;
pub mod paths;
pub mod player;
pub mod project_errors;
pub mod text;
pub mod utills;

verus! {

/// The fewest players a match can have.
pub const MIN_PLAYERS: usize = 2;

/// The most players a match can have.
pub const MAX_PLAYERS: usize = 4;

/// The side of the board a match is played on.
pub const MAP_SIZE: usize = 10;

/// The points won by defeating another player.
pub const BATTLE_SCORE: u32 = 15;

/// The points won by finding the portal.
pub const PORTAL_SCORE: u32 = 50;

/// The glyph of a cell that a player can step on.
pub const EMPTY: char = '.';

/// The glyph of a wall.
pub const WALL: char = '#';

/// The glyph of the portal.
pub const PORTAL: char = '0';

/// A cell of the board, by row and column, both counted from zero.
#[derive(PartialEq, Eq, Structural, Debug, Copy, Clone)]
pub struct Position(pub usize, pub usize);

} // verus!
