//! The match: the board together with the roster of players.

use crate::controllers::MoveOutcome;
use crate::grid::MOST_CELLS;
use crate::map::{
    board_text, get_player, is_player_glyph, move_target, plain, player_glyph, with_cell,
    Board,
};
use crate::paths::connected;
use crate::player::{change_coordinates, stepped, Player};
use crate::project_errors::GameError;
use crate::text::{decimal, push_char, push_decimal};
use crate::{Position, BATTLE_SCORE, EMPTY, MAX_PLAYERS, PORTAL, PORTAL_SCORE};
use vstd::prelude::*;
use vstd::string::*;

verus! {

/// Two states of a seat with the same name, code and points.
pub open spec fn same_seat(before: Player, after: Player) -> bool {
    &&& after.label() == before.label()
    &&& after.code() == before.code()
    &&& after.points() == before.points()
}

/// The roster has changed at most in the seat `code`, and there in nothing
/// but where the player stands.
pub open spec fn roster_kept(before: Seq<Player>, after: Seq<Player>, code: int) -> bool {
    &&& after.len() == before.len()
    &&& forall|i: int| 0 <= i < before.len() && i != code ==> #[trigger] after[i] == before[i]
    &&& same_seat(before[code], after[code])
}

/// The players of a roster as text: each under a heading with its number,
/// counted from zero.
pub open spec fn listing(players: Seq<Player>) -> Seq<char>
    decreases players.len(),
{
    if players.len() == 0 {
        Seq::empty()
    } else {
        listing(players.drop_last()) + "Player "@ + decimal((players.len() - 1) as nat) + seq!['\n']
            + players.last().rendering() + seq!['\n']
    }
}

/// A ranking as text: each player under a heading with its rank, counted
/// from one.
pub open spec fn podium(ranking: Seq<Player>) -> Seq<char>
    decreases ranking.len(),
{
    if ranking.len() == 0 {
        Seq::empty()
    } else {
        podium(ranking.drop_last()) + "--- "@ + decimal(ranking.len()) + " ---\n"@
            + ranking.last().rendering() + "\n"@
    }
}

/// A match: the labyrinth and the players in it. The roster begins with a
/// seat that stands for nobody; the player with code `k` sits at place `k`.
pub struct Game {
    map: Board,
    players: Vec<Player>,
    pub num_of_players: usize,
    pub map_size: usize,
}

impl Game {
    /// The seats of the match, the one that stands for nobody first.
    pub closed spec fn roster(&self) -> Seq<Player> {
        self.players@
    }

    /// The seat of the player with the given code.
    pub open spec fn player(&self, player_code: usize) -> Player {
        self.roster()[player_code as int]
    }

    /// The labyrinth.
    pub closed spec fn board(&self) -> Board {
        self.map
    }

    /// The side of the labyrinth, as the match was told it: the field
    /// `map_size`.
    pub closed spec fn side(&self) -> usize {
        self.map_size
    }

    /// The number of seats, as the match was told it: the field
    /// `num_of_players`.
    pub closed spec fn seats(&self) -> usize {
        self.num_of_players
    }

    /// The player with code `code` stands on the cell that holds its glyph,
    /// if it stands anywhere.
    pub open spec fn placed(&self, code: int) -> bool {
        self.roster()[code].position() matches Some(at) ==> self.board().holds(at)
            && self.board()@[at.0 as int][at.1 as int] == player_glyph(code)
    }

    /// The cell at `r`, `c`, if it holds the glyph of a player, holds that
    /// of a player of the roster who stands there.
    pub open spec fn owned(&self, r: int, c: int) -> bool {
        forall|code: int|
            1 <= code <= MAX_PLAYERS && self.board()@[r][c] == #[trigger] player_glyph(code)
                ==> code < self.roster().len() && self.roster()[code].position() == Some(
                Position(r as usize, c as usize),
            )
    }

    /// The board and the roster fit together: every seat has its own code,
    /// the first seat stands nowhere, and a cell holds a player's glyph
    /// exactly when that player stands on it.
    pub open spec fn well_formed(&self) -> bool {
        &&& self.board().well_formed()
        &&& self.side() == self.board().extent()
        &&& self.seats() == self.roster().len()
        &&& 1 <= self.roster().len() <= MAX_PLAYERS + 1
        &&& forall|i: int| 0 <= i < self.roster().len() ==> (#[trigger] self.roster()[i]).code() == i
        &&& self.roster()[0].position().is_none()
        &&& forall|i: int| 1 <= i < self.roster().len() ==> #[trigger] self.placed(i)
        &&& forall|r: int, c: int|
            0 <= r < self.board().extent() && 0 <= c < self.board().extent()
                ==> #[trigger] self.owned(r, c)
    }

    /// What a well-formed match says of each seat and of each cell: a player
    /// that stands somewhere stands on a cell of the board that holds its
    /// glyph, and a cell that holds the glyph of a player is where that
    /// player stands.
    pub proof fn lemma_fit(&self)
        requires
            self.well_formed(),
        ensures
            forall|i: int|
                1 <= i < self.roster().len() ==> ((#[trigger] self.roster()[i]).position() matches Some(
                    at,
                ) ==> self.board().holds(at) && self.board().glyph(at) == player_glyph(i)),
            forall|r: int, c: int, code: int|
                0 <= r < self.board().extent() && 0 <= c < self.board().extent() && 1 <= code
                    <= MAX_PLAYERS && #[trigger] self.board()@[r][c] == #[trigger] player_glyph(code)
                    ==> code < self.roster().len() && self.roster()[code].position() == Some(
                    Position(r as usize, c as usize),
                ),
    {
        assert forall|i: int| 1 <= i < self.roster().len() implies ((
        #[trigger] self.roster()[i]).position() matches Some(at) ==> self.board().holds(at)
            && self.board().glyph(at) == player_glyph(i)) by {
            assert(self.placed(i));
        }
        assert forall|r: int, c: int, code: int|
            0 <= r < self.board().extent() && 0 <= c < self.board().extent() && 1 <= code
                <= MAX_PLAYERS && #[trigger] self.board()@[r][c] == #[trigger] player_glyph(
                code,
            ) implies code < self.roster().len() && self.roster()[code].position() == Some(
            Position(r as usize, c as usize),
        ) by {
            assert(self.owned(r, c));
        }
    }

    /// The match `after` is this one but for `points` more in the score of
    /// one player.
    pub open spec fn rewarded(&self, after: Game, player_code: usize, points: u32) -> bool {
        &&& after.board() == self.board()
        &&& after.side() == self.side()
        &&& after.seats() == self.seats()
        &&& after.roster().len() == self.roster().len()
        &&& forall|i: int|
            0 <= i < self.roster().len() && i != player_code ==> #[trigger] after.roster()[i]
                == self.roster()[i]
        &&& after.player(player_code).points() == self.player(player_code).points()
            + points
        &&& after.player(player_code).position()
            == self.player(player_code).position()
        &&& after.player(player_code).code() == self.player(player_code).code()
        &&& after.player(player_code).label() == self.player(player_code).label()
    }

    /// The match `after` is this one after the step of `player_code` in
    /// `direction` has driven out the player `opponent`, who stood on the
    /// cell stepped onto: that player stands nowhere and has kept its
    /// points; the attacker stands on that cell, with `gain` points more; its
    /// former cell is empty; nobody else has changed.
    pub open spec fn overran(
        &self,
        after: Game,
        player_code: usize,
        opponent: usize,
        direction: Seq<char>,
        gain: int,
    ) -> bool {
        let from = self.player(player_code).position().unwrap();
        &&& after.side() == self.side()
        &&& after.seats() == self.seats()
        &&& after.roster().len() == self.roster().len()
        &&& self.seated(opponent)
        &&& opponent != player_code
        &&& self.player(opponent).position().is_some()
        &&& stepped(from, direction) == Ok::<Position, GameError>(
            self.player(opponent).position().unwrap(),
        )
        &&& after.player(player_code).position() == self.player(opponent).position()
        &&& after.player(opponent).position().is_none()
        &&& same_seat(self.player(opponent), after.player(opponent))
        &&& after.player(player_code).points() == self.player(player_code).points() + gain
        &&& after.player(player_code).label() == self.player(player_code).label()
        &&& after.player(player_code).code() == self.player(player_code).code()
        &&& forall|i: int|
            0 <= i < self.roster().len() && i != player_code && i != opponent
                ==> #[trigger] after.roster()[i] == self.roster()[i]
        &&& after.board()@ == self.stepped_board(
            player_code,
            self.player(opponent).position().unwrap(),
        )
    }

    /// The match `after` is this one after the battle that the step of
    /// `player_code` in `direction` led to: the player `opponent` has been
    /// driven out, and the attacker has won the points for a battle.
    pub open spec fn fought(
        &self,
        after: Game,
        player_code: usize,
        opponent: usize,
        direction: Seq<char>,
    ) -> bool {
        self.overran(after, player_code, opponent, direction, BATTLE_SCORE as int)
    }

    /// A code names a player of the roster.
    pub open spec fn seated(&self, player_code: usize) -> bool {
        1 <= player_code < self.roster().len()
    }

    /// The roster of a match that nobody has joined on the board yet: first
    /// the seat that stands for nobody, then a seat for each name, with the
    /// codes from one.
    pub open spec fn seats_for(roster: Seq<Player>, names: Seq<String>) -> bool {
        &&& roster.len() == names.len() + 1
        &&& roster[0].label() == Seq::<char>::empty()
        &&& forall|i: int|
            0 <= i < roster.len() ==> {
                &&& (#[trigger] roster[i]).points() == 0
                &&& roster[i].position().is_none()
                &&& roster[i].code() == i
            }
        &&& forall|i: int| 0 <= i < names.len() ==> (#[trigger] roster[i + 1]).label() == names[i]@
    }

    /// Makes the roster for the given names.
    fn seat(player_names: Vec<String>) -> (players: Vec<Player>)
        ensures
            Self::seats_for(players@, player_names@),
    {
        let mut players: Vec<Player> = Vec::new();
        players.push(Player::new(String::new()));
        let mut i: usize = 0;
        while i < player_names.len()
            invariant
                i <= player_names.len(),
                players.len() == i + 1,
                players[0].label() == Seq::<char>::empty(),
                forall|k: int|
                    0 <= k < players.len() ==> {
                        &&& (#[trigger] players[k]).points() == 0
                        &&& players[k].position().is_none()
                        &&& players[k].code() == k
                    },
                forall|k: int|
                    0 <= k < i ==> (#[trigger] players[k + 1]).label() == player_names[k]@,
            decreases player_names.len() - i,
        {
            players.push(Player::with_code(player_names[i].clone(), i + 1));
            i += 1;
        }
        players
    }

    /// A match for the given players on a board of the given side, drawn at
    /// random. Nobody stands on the board yet.
    pub fn new(player_names: Vec<String>, num_of_players: usize, size: usize) -> (game: Game)
        requires
            size > 0,
            size * size <= MOST_CELLS,
            num_of_players < usize::MAX,
        ensures
            game.side() == size,
            game.seats() == num_of_players + 1,
            game.board().extent() == size,
            game.board().well_formed(),
            plain(game.board()@),
            connected(game.board()@),
            Self::seats_for(game.roster(), player_names@),
            game.well_formed() == (player_names.len() == num_of_players && num_of_players
                <= MAX_PLAYERS),
    {
        let game = Game {
            map: Board::new(size),
            players: Self::seat(player_names),
            num_of_players: num_of_players + 1,
            map_size: size,
        };
        proof {
            if player_names.len() == num_of_players && num_of_players <= MAX_PLAYERS {
                assert forall|r: int, c: int|
                    0 <= r < game.board().extent() && 0 <= c
                        < game.board().extent() implies #[trigger] game.owned(r, c) by {}
            }
        }
        game
    }

    /// A match for the given players on a board that is at hand. Nobody
    /// stands on the board yet, so it must not hold the glyph of a player.
    pub fn with_map(player_names: Vec<String>, map: Board) -> (game: Game)
        requires
            map.well_formed(),
        ensures
            game.board() == map,
            game.side() == map.extent(),
            game.seats() == game.roster().len(),
            Self::seats_for(game.roster(), player_names@),
            game.well_formed() == (player_names.len() <= MAX_PLAYERS && forall|r: int, c: int|
                0 <= r < map.extent() && 0 <= c < map.extent() ==> !is_player_glyph(
                    #[trigger] map@[r][c],
                )),
    {
        let size: usize = map.side();
        let players = Self::seat(player_names);
        let count: usize = players.len();
        let game = Game { map: map, players: players, num_of_players: count, map_size: size };
        proof {
            if player_names.len() <= MAX_PLAYERS && (forall|r: int, c: int|
                0 <= r < map.extent() && 0 <= c < map.extent() ==> !is_player_glyph(
                    #[trigger] map@[r][c],
                )) {
                assert forall|r: int, c: int|
                    0 <= r < game.board().extent() && 0 <= c
                        < game.board().extent() implies #[trigger] game.owned(r, c) by {}
            }
            if game.well_formed() {
                assert forall|r: int, c: int|
                    0 <= r < map.extent() && 0 <= c < map.extent() implies !is_player_glyph(
                    #[trigger] map@[r][c],
                ) by {
                    assert(game.owned(r, c));
                    if is_player_glyph(map@[r][c]) {
                        let code: int = if map@[r][c] == '1' {
                            1
                        } else if map@[r][c] == '2' {
                            2
                        } else if map@[r][c] == '3' {
                            3
                        } else {
                            4
                        };
                        assert(map@[r][c] == player_glyph(code));
                    }
                }
            }
        }
        game
    }

    /// The labyrinth as text.
    pub fn display_map(&self) -> (text: String)
        requires
            self.board().well_formed(),
        ensures
            text@ == board_text(self.board()@),
    {
        self.map.display()
    }

    /// The number of seats, the one that stands for nobody counted. In a
    /// well-formed match it is what the field `num_of_players` holds.
    pub fn seats_taken(&self) -> (count: usize)
        ensures
            count == self.roster().len(),
            self.well_formed() ==> count == self.seats(),
    {
        self.players.len()
    }

    /// The side of the labyrinth. In a well-formed match it is what the
    /// field `map_size` holds.
    pub fn board_side(&self) -> (side: usize)
        ensures
            side == self.board().extent(),
            self.well_formed() ==> side == self.side(),
    {
        self.map.side()
    }

    /// The name of a player.
    pub fn get_player_name(&self, player_code: usize) -> (name: &str)
        requires
            player_code < self.roster().len(),
        ensures
            name@ == self.player(player_code).label(),
    {
        self.players[player_code].get_name()
    }

    /// The points that a player has won.
    pub fn score(&self, player_code: usize) -> (points: u32)
        requires
            player_code < self.roster().len(),
        ensures
            points == self.player(player_code).points(),
    {
        self.players[player_code].score()
    }

    /// Whether a player still stands on the board.
    pub fn in_game(&self, player_code: usize) -> (alive: bool)
        requires
            player_code < self.roster().len(),
        ensures
            alive == self.player(player_code).position().is_some(),
    {
        self.players[player_code].is_alive()
    }

    /// Adds the points for finding the portal to a player's score.
    pub fn portal(&mut self, player_code: usize)
        requires
            player_code < old(self).roster().len(),
            old(self).player(player_code).points() + PORTAL_SCORE <= u32::MAX,
        ensures
            old(self).rewarded(*final(self), player_code, PORTAL_SCORE),
            old(self).well_formed() ==> final(self).well_formed(),
    {
        self.players[player_code].win_points(PORTAL_SCORE);
        proof {
            if old(self).well_formed() {
                old(self).lemma_fit();
            }
        }
    }

    /// Puts the portal on a cell of the board. Returns whether the cell was
    /// empty; if it was not, nothing changes.
    pub fn spawn_portal(&mut self, position: Position) -> (done: bool)
        requires
            old(self).well_formed(),
            old(self).board().holds(position),
        ensures
            final(self).well_formed(),
            final(self).side() == old(self).side(),
            final(self).seats() == old(self).seats(),
            final(self).roster() == old(self).roster(),
            done == (old(self).board()@[position.0 as int][position.1 as int] == EMPTY),
            done ==> final(self).board()@ == with_cell(
                old(self).board()@,
                position.0 as int,
                position.1 as int,
                PORTAL,
            ),
            !done ==> final(self).board()@ == old(self).board()@,
    {
        let done = match self.map.spawn_portal(position) {
            Ok(_) => true,
            Err(_) => false,
        };
        proof {
            old(self).lemma_fit();
        }
        done
    }

    /// Puts a player that stands nowhere on a cell of the board. Returns
    /// whether the cell was empty; if it was not, nothing changes.
    pub fn spawn_player(&mut self, player_code: usize, position: Position) -> (done: bool)
        requires
            old(self).well_formed(),
            old(self).seated(player_code),
            old(self).board().holds(position),
            old(self).player(player_code).position().is_none(),
        ensures
            final(self).well_formed(),
            final(self).side() == old(self).side(),
            final(self).seats() == old(self).seats(),
            done == (old(self).board()@[position.0 as int][position.1 as int] == EMPTY),
            done ==> {
                &&& final(self).board()@ == with_cell(
                    old(self).board()@,
                    position.0 as int,
                    position.1 as int,
                    player_glyph(player_code as int),
                )
                &&& roster_kept(old(self).roster(), final(self).roster(), player_code as int)
                &&& final(self).player(player_code).position() == Some(position)
            },
            !done ==> final(self).board()@ == old(self).board()@,
            !done ==> final(self).roster() == old(self).roster(),
    {
        let done = match self.map.spawn_player(&mut self.players[player_code], position) {
            Ok(_) => true,
            Err(_) => false,
        };
        proof {
            old(self).lemma_fit();
        }
        done
    }

    /// The board after a player has stepped from one cell onto another.
    pub open spec fn stepped_board(&self, player_code: usize, to: Position) -> Seq<Seq<char>> {
        let from = self.player(player_code).position().unwrap();
        with_cell(
            with_cell(self.board()@, from.0 as int, from.1 as int, EMPTY),
            to.0 as int,
            to.1 as int,
            player_glyph(player_code as int),
        )
    }

    /// Where a move of a player would end, or why it cannot be made.
    pub open spec fn verdict(&self, player_code: usize, direction: Seq<char>) -> Result<
        Position,
        GameError,
    > {
        move_target(
            self.board()@,
            self.player(player_code).position().unwrap(),
            direction,
        )
    }

    /// Tries to move a player one step. `Ok(true)` says that the step was
    /// made. Any other move is not made but reported with its kind: a
    /// token that names no direction, a step off the board, a cell that
    /// cannot be entered, and, for the match to settle, a step onto another
    /// player's cell or onto the portal. But for a step made, nothing
    /// changes.
    pub fn make_move(&mut self, player_code: usize, direction: &str) -> (result: Result<
        bool,
        GameError,
    >)
        requires
            old(self).well_formed(),
            old(self).seated(player_code),
            old(self).player(player_code).position().is_some(),
        ensures
            final(self).well_formed(),
            final(self).side() == old(self).side(),
            final(self).seats() == old(self).seats(),
            match old(self).verdict(player_code, direction@) {
                Ok(to) => {
                    &&& result == Ok::<bool, GameError>(true)
                    &&& final(self).board()@ == old(self).stepped_board(player_code, to)
                    &&& roster_kept(old(self).roster(), final(self).roster(), player_code as int)
                    &&& final(self).player(player_code).position() == Some(to)
                },
                Err(e) => {
                    &&& result == Err::<bool, GameError>(e)
                    &&& final(self).board()@ == old(self).board()@
                    &&& final(self).roster() == old(self).roster()
                },
            },
    {
        proof {
            assert(old(self).placed(player_code as int));
        }
        let moved = self.map.move_player(&mut self.players[player_code], direction);
        proof {
            old(self).lemma_fit();
        }
        match moved {
            Ok(_) => Ok(true),
            Err(e) => Err(e),
        }
    }

    /// Drives out the player who stands on the cell that `player_code`
    /// steps onto: that player is taken off the board, and the attacker
    /// takes its cell. No points change. Returns the code of the defeated
    /// player.
    pub fn defeat(&mut self, player_code: usize, direction: &str) -> (opponent: usize)
        requires
            old(self).well_formed(),
            old(self).seated(player_code),
            old(self).player(player_code).position().is_some(),
            old(self).verdict(player_code, direction@) == Err::<Position, GameError>(
                GameError::AnotherPlayer,
            ),
        ensures
            final(self).well_formed(),
            old(self).overran(*final(self), player_code, opponent, direction@, 0),
    {
        let from = self.players[player_code].get_position().unwrap();
        proof {
            assert(old(self).placed(player_code as int));
        }
        let field = change_coordinates(from, direction).unwrap();
        let opponent_code: usize = get_player(self.map.get_field(field));
        proof {
            assert(old(self).owned(field.0 as int, field.1 as int));
        }
        self.map.kill_player(&mut self.players[opponent_code]);
        let _ = self.map.move_player(&mut self.players[player_code], direction);
        proof {
            assert(self.board()@ =~~= old(self).stepped_board(player_code, field));
            old(self).lemma_fit();
        }
        opponent_code
    }

    /// Settles a battle: the player who stands on the cell that
    /// `player_code` steps onto is taken off the board, the attacker takes
    /// its cell and wins the points for a battle. Returns the code of the
    /// defeated player.
    pub fn battle(&mut self, player_code: usize, direction: &str) -> (opponent: usize)
        requires
            old(self).well_formed(),
            old(self).seated(player_code),
            old(self).player(player_code).position().is_some(),
            old(self).verdict(player_code, direction@) == Err::<Position, GameError>(
                GameError::AnotherPlayer,
            ),
            old(self).player(player_code).points() + BATTLE_SCORE <= u32::MAX,
        ensures
            final(self).well_formed(),
            old(self).fought(*final(self), player_code, opponent, direction@),
    {
        let opponent: usize = self.defeat(player_code, direction);
        let ghost between = *self;
        self.players[player_code].win_points(BATTLE_SCORE);
        proof {
            between.lemma_fit();
        }
        opponent
    }

    /// The players who take part: the roster without its first seat.
    pub open spec fn contenders(&self) -> Seq<Player> {
        self.roster().subrange(1, self.roster().len() as int)
    }

    /// The match as text: the players, then the labyrinth.
    pub fn display(&self) -> (text: String)
        requires
            self.board().well_formed(),
            self.roster().len() >= 1,
        ensures
            text@ == listing(self.contenders()) + board_text(self.board()@) + seq!['\n'],
    {
        let mut text = String::new();
        let mut i: usize = 1;
        while i < self.players.len()
            invariant
                1 <= i <= self.players.len(),
                text@ == listing(self.roster().subrange(1, i as int)),
            decreases self.players.len() - i,
        {
            text.append("Player ");
            push_decimal(&mut text, (i - 1) as u64);
            push_char(&mut text, '\n');
            let entry = self.players[i].display();
            text.append(entry.as_str());
            push_char(&mut text, '\n');
            proof {
                let upto = self.roster().subrange(1, i + 1);
                assert(upto.drop_last() == self.roster().subrange(1, i as int));
            }
            i += 1;
        }
        let board = self.map.display();
        text.append(board.as_str());
        push_char(&mut text, '\n');
        text
    }

    /// The final list of the players, best first: by descending score, and
    /// players with the same score in the order of the roster.
    pub fn ranking(self) -> (ranking: Vec<Player>)
        requires
            self.roster().len() >= 1,
        ensures
            exists|by: Seq<int>| crate::player::ranks(self.contenders(), ranking@, by),
    {
        let mut ranklist = self.players;
        let _ = ranklist.remove(0);
        assert(ranklist@ == self.contenders());
        Player::rank(ranklist)
    }

    /// The final list of the players as text.
    pub fn finish(self) -> (text: String)
        requires
            self.roster().len() >= 1,
        ensures
            exists|ranking: Seq<Player>, by: Seq<int>|
                crate::player::ranks(self.contenders(), ranking, by) && text@ == podium(ranking),
    {
        let ranklist = self.ranking();
        let mut text = String::new();
        let mut i: usize = 0;
        while i < ranklist.len()
            invariant
                i <= ranklist.len(),
                text@ == podium(ranklist@.take(i as int)),
            decreases ranklist.len() - i,
        {
            text.append("--- ");
            push_decimal(&mut text, (i + 1) as u64);
            text.append(" ---\n");
            let entry = ranklist[i].display();
            text.append(entry.as_str());
            text.append("\n");
            proof {
                let upto = ranklist@.take(i + 1);
                assert(upto.drop_last() == ranklist@.take(i as int));
            }
            i += 1;
        }
        proof {
            assert(ranklist@.take(ranklist.len() as int) == ranklist@);
        }
        text
    }

    /// The match `after` is this one after `player_code` has stepped onto
    /// the empty cell `to`.
    pub open spec fn walked(&self, after: Game, player_code: usize, to: Position) -> bool {
        &&& after.side() == self.side()
        &&& after.seats() == self.seats()
        &&& after.board()@ == self.stepped_board(player_code, to)
        &&& roster_kept(self.roster(), after.roster(), player_code as int)
        &&& after.player(player_code).position() == Some(to)
    }

    /// The match `after` has the board and the roster of this one.
    pub open spec fn untouched(&self, after: Game) -> bool {
        &&& after.side() == self.side()
        &&& after.seats() == self.seats()
        &&& after.board()@ == self.board()@
        &&& after.roster() == self.roster()
    }

    /// The match `after` is this one after the move of `player_code` in
    /// `direction` has been settled with `outcome`.
    pub open spec fn settled(
        &self,
        after: Game,
        player_code: usize,
        direction: Seq<char>,
        outcome: MoveOutcome,
    ) -> bool {
        match self.verdict(player_code, direction) {
            Ok(to) => outcome == MoveOutcome::Moved && self.walked(after, player_code, to),
            Err(GameError::AnotherPlayer) => outcome matches MoveOutcome::Battled(opponent)
                && self.fought(after, player_code, opponent, direction),
            Err(GameError::Portal) => outcome == MoveOutcome::PortalFound && self.rewarded(
                after,
                player_code,
                PORTAL_SCORE,
            ),
            Err(e) => outcome == MoveOutcome::Rejected(e) && self.untouched(after),
        }
    }

    /// From this match to `after` nobody has lost points, and nobody has
    /// come back to the board.
    pub open spec fn carried_on(&self, after: Game) -> bool {
        &&& after.roster().len() == self.roster().len()
        &&& forall|i: int|
            0 <= i < self.roster().len() ==> {
                &&& (#[trigger] after.roster()[i]).points() >= self.roster()[i].points()
                &&& after.roster()[i].position().is_some() ==> self.roster()[i].position().is_some()
            }
    }

    /// Makes the move of a player and settles what it leads to. A step onto
    /// an empty cell is made. A step onto another player's cell is a
    /// battle: that player leaves the board, the attacker takes its cell
    /// and the points for a battle. A step onto the portal is not made,
    /// but wins the points for the portal. Any other move is refused, and
    /// nothing changes.
    pub fn resolve_move(&mut self, player_code: usize, direction: &str) -> (outcome: MoveOutcome)
        requires
            old(self).well_formed(),
            old(self).seated(player_code),
            old(self).player(player_code).position().is_some(),
            old(self).player(player_code).points() + PORTAL_SCORE <= u32::MAX,
        ensures
            final(self).well_formed(),
            old(self).settled(*final(self), player_code, direction@, outcome),
            old(self).carried_on(*final(self)),
    {
        let from = self.players[player_code].get_position().unwrap();
        match self.map.target(from, direction) {
            Ok(_) => {
                let _ = self.make_move(player_code, direction);
                MoveOutcome::Moved
            },
            Err(GameError::AnotherPlayer) => {
                let opponent: usize = self.battle(player_code, direction);
                MoveOutcome::Battled(opponent)
            },
            Err(GameError::Portal) => {
                self.portal(player_code);
                MoveOutcome::PortalFound
            },
            Err(e) => MoveOutcome::Rejected(e),
        }
    }

    /// The empty cells of the labyrinth, row after row.
    pub fn free_cells(&self) -> (cells: Vec<Position>)
        requires
            self.board().well_formed(),
        ensures
            self.board().lists_free(cells@),
    {
        self.map.free_cells()
    }

    /// The player whose turn comes after that of `after`: the next one in
    /// the roster who still stands on the board, if there is one in what
    /// is left of the round.
    pub fn next_player(&self, after: usize) -> (next: Option<usize>)
        ensures
            match next {
                Some(code) => {
                    &&& after < code < self.roster().len()
                    &&& self.roster()[code as int].position().is_some()
                    &&& forall|i: int| after < i < code ==> (#[trigger] self.roster()[i]).position().is_none()
                },
                None => forall|i: int|
                    after < i < self.roster().len() ==> (#[trigger] self.roster()[i]).position().is_none(),
            },
    {
        if after >= self.players.len() {
            return None;
        }
        let mut code: usize = after + 1;
        while code < self.players.len()
            invariant
                after < code <= self.players.len(),
                forall|i: int| after < i < code ==> (#[trigger] self.roster()[i]).position().is_none(),
            decreases self.players.len() - code,
        {
            if self.players[code].is_alive() {
                return Some(code);
            }
            code += 1;
        }
        None
    }
}

} // verus!
