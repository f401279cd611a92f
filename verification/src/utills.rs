//! What the table around the match decides: who may sit down, how far a
//! roll of the dice carries, and how a glyph of the board is to be shown.

use crate::chance::random_usize;
use crate::map::{is_player_glyph, player_glyph};
use crate::{EMPTY, MAX_PLAYERS, MIN_PLAYERS, PORTAL};
use vstd::prelude::*;

verus! {

/// A name is on the list.
pub open spec fn taken(players: Seq<String>, username: Seq<char>) -> bool {
    exists|k: int| 0 <= k < players.len() && (#[trigger] players[k])@ == username
}

/// Enters a name at the end of the list unless it is on it already.
/// Returns whether the name was entered.
pub fn add_player(players: &mut Vec<String>, username: String) -> (added: bool)
    ensures
        added == !taken(old(players)@, username@),
        added ==> final(players)@ == old(players)@.push(username),
        !added ==> final(players)@ == old(players)@,
{
    let mut i: usize = 0;
    while i < players.len()
        invariant
            i <= players.len(),
            *players == *old(players),
            forall|k: int| 0 <= k < i ==> (#[trigger] players[k])@ != username@,
        decreases players.len() - i,
    {
        if players[i] == username {
            return false;
        }
        i += 1;
    }
    players.push(username);
    true
}

/// What a number of players is to the table.
#[derive(PartialEq, Eq, Structural, Debug, Copy, Clone)]
pub enum Headcount {
    /// A match can be played.
    Accepted,
    /// There are more players than the match has room for.
    TooMany,
    /// There are not enough players for a match.
    TooFew,
}

/// Holds a number of players against the limits of the match.
pub fn headcount(number_of_players: usize) -> (verdict: Headcount)
    ensures
        verdict == (if number_of_players > MAX_PLAYERS {
            Headcount::TooMany
        } else if number_of_players < MIN_PLAYERS {
            Headcount::TooFew
        } else {
            Headcount::Accepted
        }),
{
    if number_of_players > MAX_PLAYERS {
        Headcount::TooMany
    } else if number_of_players < MIN_PLAYERS {
        Headcount::TooFew
    } else {
        Headcount::Accepted
    }
}

/// The number of moves that a random number stands for: from two to six.
pub open spec fn moves_for(raw: usize) -> int {
    2 + raw as int % 5
}

/// Turns a random number into the number of moves of a turn.
pub fn dice_value(raw: usize) -> (moves: usize)
    ensures
        moves == moves_for(raw),
        2 <= moves <= 6,
{
    2 + raw % 5
}

/// Rolls the dice: the number of moves of a turn, from two to six.
pub fn roll_a_dice() -> (moves: usize)
    ensures
        2 <= moves <= 6,
{
    dice_value(random_usize())
}

/// How a character of the board's text is to be shown.
#[derive(PartialEq, Eq, Structural, Debug, Copy, Clone)]
pub enum Tint {
    /// An empty cell.
    Free,
    /// The portal.
    Gate,
    /// The cell of the player who is looking at the board.
    Own,
    /// The cell of another player.
    Foe,
    /// Anything else.
    Plain,
}

/// How `symbol` is shown to the player with the code `player_code`. The
/// blank that marks the seat of nobody counts as the glyph of a player.
pub open spec fn tint_of(symbol: char, player_code: usize) -> Tint {
    if symbol == EMPTY {
        Tint::Free
    } else if symbol == PORTAL {
        Tint::Gate
    } else if symbol == ' ' || is_player_glyph(symbol) {
        if symbol == player_glyph(player_code as int) {
            Tint::Own
        } else {
            Tint::Foe
        }
    } else {
        Tint::Plain
    }
}

/// Decides how a character of the board's text is shown to a player.
pub fn tint(symbol: char, player_code: usize) -> (shown: Tint)
    requires
        player_code <= MAX_PLAYERS,
    ensures
        shown == tint_of(symbol, player_code),
{
    if symbol == EMPTY {
        Tint::Free
    } else if symbol == PORTAL {
        Tint::Gate
    } else if symbol == ' ' || symbol == '1' || symbol == '2' || symbol == '3' || symbol == '4' {
        let own = if player_code == 0 {
            ' '
        } else if player_code == 1 {
            '1'
        } else if player_code == 2 {
            '2'
        } else if player_code == 3 {
            '3'
        } else {
            '4'
        };
        if symbol == own {
            Tint::Own
        } else {
            Tint::Foe
        }
    } else {
        Tint::Plain
    }
}

} // verus!
