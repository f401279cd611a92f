//! How a match runs: placing everybody at its start, settling one move,
//! and passing the turn.

use crate::chance::random_usize;
use crate::game::{roster_kept, same_seat, Game};
use crate::map::{is_player_glyph, player_glyph, with_cell};
use crate::project_errors::GameError;
use crate::{Position, EMPTY, PORTAL, PORTAL_SCORE};
use vstd::prelude::*;

verus! {

/// How an attempt to move ended.
#[derive(PartialEq, Eq, Structural, Debug, Copy, Clone)]
pub enum MoveOutcome {
    /// The player stepped onto an empty cell.
    Moved,
    /// The player defeated the player with this code and took its cell.
    Battled(usize),
    /// The player found the portal.
    PortalFound,
    /// The move could not be made; nothing has changed.
    Rejected(GameError),
}

/// Where a player's turn stands.
#[derive(PartialEq, Eq, Structural, Debug, Copy, Clone)]
pub enum TurnState {
    /// The player has this many moves left and is asked for a direction.
    AwaitingInput(usize),
    /// The turn passes to the next player.
    TurnOver,
    /// The match has ended.
    GameOver,
}

/// Where a turn stands after one attempt to move: a step uses up one of the
/// moves left, a battle ends the turn, the portal ends the match, and a
/// move that was refused costs nothing.
pub open spec fn turn_after(moves_left: usize, outcome: MoveOutcome) -> TurnState {
    match outcome {
        MoveOutcome::Moved => if moves_left > 1 {
            TurnState::AwaitingInput((moves_left - 1) as usize)
        } else {
            TurnState::TurnOver
        },
        MoveOutcome::Battled(_) => TurnState::TurnOver,
        MoveOutcome::PortalFound => TurnState::GameOver,
        MoveOutcome::Rejected(_) => TurnState::AwaitingInput(moves_left),
    }
}

/// Where a turn with `moves_left` moves stands after `outcome`.
pub fn next_state(moves_left: usize, outcome: MoveOutcome) -> (state: TurnState)
    requires
        moves_left >= 1,
    ensures
        state == turn_after(moves_left, outcome),
{
    match outcome {
        MoveOutcome::Moved => if moves_left > 1 {
            TurnState::AwaitingInput(moves_left - 1)
        } else {
            TurnState::TurnOver
        },
        MoveOutcome::Battled(_) => TurnState::TurnOver,
        MoveOutcome::PortalFound => TurnState::GameOver,
        MoveOutcome::Rejected(_) => TurnState::AwaitingInput(moves_left),
    }
}

/// The cell that a random number picks from a list of cells.
pub open spec fn picked(cells: Seq<Position>, raw: usize) -> Option<Position> {
    if cells.len() == 0 {
        None
    } else {
        Some(cells[raw as int % cells.len() as int])
    }
}

/// Picks a cell from a list by a random number; an empty list offers none.
pub fn pick(cells: &Vec<Position>, raw: usize) -> (cell: Option<Position>)
    ensures
        cell == picked(cells@, raw),
{
    if cells.len() == 0 {
        None
    } else {
        Some(cells[raw % cells.len()])
    }
}

impl Game {
    /// The match `after` is this one after `glyph` has been put on the
    /// empty cell that `raw` picks, if the board has an empty cell at all.
    pub open spec fn drawn(&self, after: Game, glyph: char, raw: usize, done: bool) -> bool {
        exists|cells: Seq<Position>| #[trigger]
            self.board().lists_free(cells) && match picked(cells, raw) {
                Some(at) => done && after.board()@ == with_cell(
                    self.board()@,
                    at.0 as int,
                    at.1 as int,
                    glyph,
                ),
                None => !done && after.board()@ == self.board()@,
            }
    }

    /// The player with the given code stands on a cell that holds its
    /// glyph.
    pub open spec fn stands(&self, player_code: usize) -> bool {
        self.player(player_code).position() matches Some(at)
            && self.board()@[at.0 as int][at.1 as int] == player_glyph(player_code as int)
    }

    /// Puts a player that stands nowhere on the empty cell that the random
    /// number `raw` picks. Only a board without an empty cell has no place
    /// for the player; then nothing changes.
    pub fn place_player(&mut self, player_code: usize, raw: usize) -> (done: bool)
        requires
            old(self).well_formed(),
            old(self).seated(player_code),
            old(self).player(player_code).position().is_none(),
        ensures
            final(self).well_formed(),
            final(self).side() == old(self).side(),
            final(self).seats() == old(self).seats(),
            old(self).drawn(*final(self), player_glyph(player_code as int), raw, done),
            roster_kept(old(self).roster(), final(self).roster(), player_code as int),
            done ==> final(self).stands(player_code),
            !done ==> final(self).roster() == old(self).roster(),
    {
        let cells = self.free_cells();
        match pick(&cells, raw) {
            Some(at) => self.spawn_player(player_code, at),
            None => false,
        }
    }

    /// Puts the portal on the empty cell that the random number `raw`
    /// picks. Only a board without an empty cell has no place for it; then
    /// nothing changes.
    pub fn place_portal(&mut self, raw: usize) -> (done: bool)
        requires
            old(self).well_formed(),
        ensures
            final(self).well_formed(),
            final(self).side() == old(self).side(),
            final(self).seats() == old(self).seats(),
            final(self).roster() == old(self).roster(),
            old(self).drawn(*final(self), PORTAL, raw, done),
    {
        let cells = self.free_cells();
        match pick(&cells, raw) {
            Some(at) => self.spawn_portal(at),
            None => false,
        }
    }

    /// The cell at `r`, `c` is in `after` as it is in this match, unless it
    /// is empty in this match and holds the glyph of a player in `after`.
    pub open spec fn kept_or_filled(&self, after: Game, r: int, c: int) -> bool {
        after.board()@[r][c] == self.board()@[r][c] || (self.board()@[r][c] == EMPTY
            && is_player_glyph(after.board()@[r][c]))
    }

    /// From this match to `after` the seats have kept their names, codes
    /// and points, and no cell has changed but empty cells that players
    /// have been put on.
    pub open spec fn set_up(&self, after: Game) -> bool {
        &&& after.side() == self.side()
        &&& after.seats() == self.seats()
        &&& after.roster().len() == self.roster().len()
        &&& forall|i: int|
            0 <= i < self.roster().len() ==> same_seat(
                #[trigger] self.roster()[i],
                after.roster()[i],
            )
        &&& forall|r: int, c: int|
            0 <= r < self.board().extent() && 0 <= c < self.board().extent()
                ==> #[trigger] self.kept_or_filled(after, r, c)
    }

    /// Nobody of the roster stands on the board.
    pub open spec fn nobody_placed(&self) -> bool {
        forall|i: int|
            0 <= i < self.roster().len() ==> (#[trigger] self.roster()[i]).position().is_none()
    }

    /// Every player of the roster stands on the board.
    pub open spec fn everybody_placed(&self) -> bool {
        forall|i: int|
            1 <= i < self.roster().len() ==> (#[trigger] self.roster()[i]).position().is_some()
    }

    /// The match `after` is this one after every player and the portal
    /// have been put on the board: the portal is on the cell `gate`, which is
    /// empty in this match, and no other cell has changed but empty cells
    /// that players have been put on.
    pub open spec fn begun_at(&self, after: Game, gate: Position) -> bool {
        &&& after.side() == self.side()
        &&& after.seats() == self.seats()
        &&& after.roster().len() == self.roster().len()
        &&& forall|i: int|
            0 <= i < self.roster().len() ==> same_seat(
                #[trigger] self.roster()[i],
                after.roster()[i],
            )
        &&& after.everybody_placed()
        &&& self.board().holds(gate)
        &&& self.board().glyph(gate) == EMPTY
        &&& after.board().glyph(gate) == PORTAL
        &&& forall|r: int, c: int|
            0 <= r < self.board().extent() && 0 <= c < self.board().extent() && (r != gate.0 || c
                != gate.1) ==> #[trigger] self.kept_or_filled(after, r, c)
    }

    /// The match `after` is this one after every player and the portal
    /// have been put on the board.
    pub open spec fn begun(&self, after: Game) -> bool {
        exists|gate: Position| #[trigger] self.begun_at(after, gate)
    }

    /// The board of this match has an empty cell for each of its players
    /// and one for the portal.
    pub open spec fn roomy(&self) -> bool {
        exists|cells: Seq<Position>| #[trigger]
            self.board().lists_free(cells) && cells.len() >= self.roster().len()
    }

    /// Begins the match: every player, in the order of the roster, and
    /// then the portal are put on empty cells picked at random. This is done
    /// only if the board has an empty cell for each of them; otherwise
    /// nothing changes. Returns whether it was done.
    pub fn start(&mut self) -> (done: bool)
        requires
            old(self).well_formed(),
            old(self).nobody_placed(),
        ensures
            final(self).well_formed(),
            done == old(self).roomy(),
            done ==> old(self).begun(*final(self)),
            !done ==> old(self).untouched(*final(self)),
    {
        let count: usize = self.seats_taken();
        let cells = self.free_cells();
        if cells.len() < count {
            proof {
                if self.roomy() {
                    let other = choose|other: Seq<Position>| #[trigger]
                        self.board().lists_free(other) && other.len() >= self.roster().len();
                    self.board().lemma_free_unique(other, cells@);
                }
            }
            return false;
        }
        let ghost mut frees = cells@;
        let mut code: usize = 1;
        while code < count
            invariant
                self.well_formed(),
                old(self).well_formed(),
                old(self).set_up(*self),
                count == self.roster().len(),
                1 <= code <= count,
                self.board().lists_free(frees),
                frees.len() + code - 1 == cells.len(),
                count <= cells.len(),
                forall|i: int| 1 <= i < code ==> (#[trigger] self.roster()[i]).position().is_some(),
                forall|i: int|
                    code <= i < count ==> (#[trigger] self.roster()[i]).position().is_none(),
            decreases count - code,
        {
            let ghost before = *self;
            let raw: usize = random_usize();
            let _ = self.place_player(code, raw);
            proof {
                let found = choose|found: Seq<Position>| #[trigger]
                    before.board().lists_free(found) && match picked(found, raw) {
                        Some(at) => self.board()@ == with_cell(
                            before.board()@,
                            at.0 as int,
                            at.1 as int,
                            player_glyph(code as int),
                        ),
                        None => self.board()@ == before.board()@,
                    };
                before.board().lemma_free_unique(found, frees);
                let at = raw as int % frees.len() as int;
                before.board().lemma_free_taken(
                    self.board(),
                    frees,
                    at,
                    player_glyph(code as int),
                );
                old(self).lemma_set_up_goes_on(before, *self);
                frees = frees.remove(at);
            }
            code += 1;
        }
        let ghost before = *self;
        let raw: usize = random_usize();
        let done = self.place_portal(raw);
        proof {
            let found = choose|found: Seq<Position>| #[trigger]
                before.board().lists_free(found) && match picked(found, raw) {
                    Some(at) => done && self.board()@ == with_cell(
                        before.board()@,
                        at.0 as int,
                        at.1 as int,
                        PORTAL,
                    ),
                    None => !done && self.board()@ == before.board()@,
                };
            before.board().lemma_free_unique(found, frees);
            let at = frees[raw as int % frees.len() as int];
            assert(old(self).kept_or_filled(before, at.0 as int, at.1 as int));
            assert forall|r: int, c: int|
                0 <= r < old(self).board().extent() && 0 <= c < old(self).board().extent() && (r
                    != at.0 || c != at.1) implies #[trigger] old(self).kept_or_filled(
                *self,
                r,
                c,
            ) by {
                assert(old(self).kept_or_filled(before, r, c));
            }
            assert(old(self).begun_at(*self, at));
        }
        done
    }

    /// When a match has been set up as far as `between`, and one more empty
    /// cell is filled from there to `after`, the match has been set up as
    /// far as `after`.
    proof fn lemma_set_up_goes_on(&self, between: Game, after: Game)
        requires
            self.set_up(between),
            between.board().extent() == self.board().extent(),
            after.side() == between.side(),
            after.seats() == between.seats(),
            after.roster().len() == between.roster().len(),
            forall|i: int|
                0 <= i < between.roster().len() ==> same_seat(
                    #[trigger] between.roster()[i],
                    after.roster()[i],
                ),
            forall|r: int, c: int|
                0 <= r < between.board().extent() && 0 <= c < between.board().extent()
                    ==> #[trigger] between.kept_or_filled(after, r, c),
        ensures
            self.set_up(after),
    {
        assert forall|i: int| 0 <= i < self.roster().len() implies same_seat(
            #[trigger] self.roster()[i],
            after.roster()[i],
        ) by {}
        assert forall|r: int, c: int|
            0 <= r < self.board().extent() && 0 <= c
                < self.board().extent() implies #[trigger] self.kept_or_filled(after, r, c) by {
            assert(self.kept_or_filled(between, r, c));
            assert(between.kept_or_filled(after, r, c));
        }
    }

    /// Takes the direction that a player has entered for one of the moves
    /// of its turn, settles the move, and says where the turn stands.
    pub fn play_turn(&mut self, player: usize, direction: &str, moves_left: usize) -> (step: (
        MoveOutcome,
        TurnState,
    ))
        requires
            old(self).well_formed(),
            old(self).seated(player),
            old(self).player(player).position().is_some(),
            old(self).player(player).points() + PORTAL_SCORE <= u32::MAX,
            moves_left >= 1,
        ensures
            final(self).well_formed(),
            old(self).settled(*final(self), player, direction@, step.0),
            old(self).carried_on(*final(self)),
            step.1 == turn_after(moves_left, step.0),
    {
        let outcome = self.resolve_move(player, direction);
        (outcome, next_state(moves_left, outcome))
    }
}

} // verus!
