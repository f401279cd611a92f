//! A participant of the match, and the step a direction stands for.

use crate::directions;
use crate::project_errors::GameError;
use crate::text::{decimal, push_decimal, same_text};
use crate::Position;
use vstd::prelude::*;
use vstd::set_lib::{lemma_int_range, lemma_subset_equality, set_int_range};
use vstd::std_specs::cmp::{PartialEqSpecImpl, PartialOrdSpecImpl};
use vstd::string::*;

verus! {

/// Where one step in `direction` leads from `coordinates`: a step up from
/// row zero or left from column zero leaves the board, as does a step past
/// the largest coordinate that can be written down, and a token that names
/// no direction is refused wherever it is tried.
pub open spec fn stepped(coordinates: Position, direction: Seq<char>) -> Result<
    Position,
    GameError,
> {
    let row = coordinates.0;
    let col = coordinates.1;
    if direction == directions::DOWN@ {
        if row < usize::MAX {
            Ok(Position((row + 1) as usize, col))
        } else {
            Err(GameError::Outside)
        }
    } else if direction == directions::UP@ {
        if row > 0 {
            Ok(Position((row - 1) as usize, col))
        } else {
            Err(GameError::Outside)
        }
    } else if direction == directions::LEFT@ {
        if col > 0 {
            Ok(Position(row, (col - 1) as usize))
        } else {
            Err(GameError::Outside)
        }
    } else if direction == directions::RIGHT@ {
        if col < usize::MAX {
            Ok(Position(row, (col + 1) as usize))
        } else {
            Err(GameError::Outside)
        }
    } else {
        Err(GameError::InvalidDirection)
    }
}

/// Takes one step from `coordinates`. The board's size is not known here:
/// the caller holds the result against it.
pub fn change_coordinates(coordinates: Position, direction: &str) -> (result: Result<
    Position,
    GameError,
>)
    ensures
        result == stepped(coordinates, direction@),
{
    let row: usize = coordinates.0;
    let col: usize = coordinates.1;
    if same_text(direction, directions::DOWN) {
        if row < usize::MAX {
            Ok(Position(row + 1, col))
        } else {
            Err(GameError::Outside)
        }
    } else if same_text(direction, directions::UP) {
        if row > 0 {
            Ok(Position(row - 1, col))
        } else {
            Err(GameError::Outside)
        }
    } else if same_text(direction, directions::LEFT) {
        if col > 0 {
            Ok(Position(row, col - 1))
        } else {
            Err(GameError::Outside)
        }
    } else if same_text(direction, directions::RIGHT) {
        if col < usize::MAX {
            Ok(Position(row, col + 1))
        } else {
            Err(GameError::Outside)
        }
    } else {
        Err(GameError::InvalidDirection)
    }
}

/// Where a player who may or may not stand on the board is after one step:
/// nowhere, unless it stood somewhere and the step could be taken.
pub open spec fn stepped_from(coordinates: Option<Position>, direction: Seq<char>) -> Option<
    Position,
> {
    match coordinates {
        Some(position) => match stepped(position, direction) {
            Ok(target) => Some(target),
            Err(_) => None,
        },
        None => None,
    }
}

/// Takes one step from coordinates that may be missing.
pub fn get_coordinates(coordinates: Option<Position>, direction: &str) -> (result: Option<Position>)
    ensures
        result == stepped_from(coordinates, direction@),
{
    match coordinates {
        Some(position) => match change_coordinates(position, direction) {
            Ok(target) => Some(target),
            Err(_) => None,
        },
        None => None,
    }
}

/// No two of the four tokens are the same.
pub proof fn lemma_tokens_differ()
    ensures
        directions::DOWN@ != directions::UP@,
        directions::DOWN@ != directions::LEFT@,
        directions::DOWN@ != directions::RIGHT@,
        directions::UP@ != directions::LEFT@,
        directions::UP@ != directions::RIGHT@,
        directions::LEFT@ != directions::RIGHT@,
{
    reveal_strlit("s");
    reveal_strlit("w");
    reveal_strlit("a");
    reveal_strlit("d");
    assert(directions::DOWN@[0] == 's');
    assert(directions::UP@[0] == 'w');
    assert(directions::LEFT@[0] == 'a');
}

/// A token that names no direction is refused from every cell.
pub proof fn lemma_unknown_direction(coordinates: Position, direction: Seq<char>)
    requires
        direction != directions::DOWN@,
        direction != directions::UP@,
        direction != directions::LEFT@,
        direction != directions::RIGHT@,
    ensures
        stepped(coordinates, direction) == Err::<Position, GameError>(GameError::InvalidDirection),
{
}

/// No step leads up from the first row or left from the first column, and
/// every other step up, left, down or right leads to the neighbour there.
pub proof fn lemma_steps(coordinates: Position)
    ensures
        stepped(coordinates, directions::UP@) == (if coordinates.0 == 0 {
            Err::<Position, GameError>(GameError::Outside)
        } else {
            Ok(Position((coordinates.0 - 1) as usize, coordinates.1))
        }),
        stepped(coordinates, directions::LEFT@) == (if coordinates.1 == 0 {
            Err::<Position, GameError>(GameError::Outside)
        } else {
            Ok(Position(coordinates.0, (coordinates.1 - 1) as usize))
        }),
        coordinates.0 < usize::MAX ==> stepped(coordinates, directions::DOWN@) == Ok::<
            Position,
            GameError,
        >(Position((coordinates.0 + 1) as usize, coordinates.1)),
        coordinates.1 < usize::MAX ==> stepped(coordinates, directions::RIGHT@) == Ok::<
            Position,
            GameError,
        >(Position(coordinates.0, (coordinates.1 + 1) as usize)),
{
    lemma_tokens_differ();
}

/// One participant: who it is, what it has won, and where it stands. A
/// player without coordinates is not on the board: not yet spawned, or
/// killed.
#[derive(Clone)]
pub struct Player {
    pub name: String,
    score: u32,
    pub player_code: usize,
    pub coordinates: Option<Position>,
}

impl Player {
    /// The points won so far, which `score` returns.
    pub closed spec fn points(&self) -> nat {
        self.score as nat
    }

    /// The display name, as a sequence of characters: the field `name`,
    /// which `get_name` returns.
    pub closed spec fn label(&self) -> Seq<char> {
        self.name@
    }

    /// The code that marks the player's cell on the board: the field
    /// `player_code`, which `get_code` returns.
    pub closed spec fn code(&self) -> usize {
        self.player_code
    }

    /// Where the player stands, if it is on the board: the field
    /// `coordinates`, which `get_position` returns.
    pub closed spec fn position(&self) -> Option<Position> {
        self.coordinates
    }

    /// What `display` writes: the name, then the score on a line of its own.
    pub open spec fn rendering(&self) -> Seq<char> {
        self.label() + "\nscore: "@ + decimal(self.points()) + "\n"@
    }

    /// A player that stands for nobody: code zero, no points, off the board.
    pub fn new(name: String) -> (player: Player)
        ensures
            player.label() == name@,
            player.code() == 0,
            player.points() == 0,
            player.position().is_none(),
    {
        Player { name: name, player_code: 0, score: 0, coordinates: None }
    }

    /// A player with the given code, no points, off the board.
    pub fn with_code(name: String, code: usize) -> (player: Player)
        ensures
            player.label() == name@,
            player.code() == code,
            player.points() == 0,
            player.position().is_none(),
    {
        Player { name: name, player_code: code, score: 0, coordinates: None }
    }

    /// The points won so far.
    pub fn score(&self) -> (score: u32)
        ensures
            score == self.points(),
    {
        self.score
    }

    /// The display name.
    pub fn get_name(&self) -> (name: &str)
        ensures
            name@ == self.label(),
    {
        self.name.as_str()
    }

    /// The code that marks the player's cell on the board.
    pub fn get_code(&self) -> (code: usize)
        ensures
            code == self.code(),
    {
        self.player_code
    }

    /// Where the player stands, if it is on the board.
    pub fn get_position(&self) -> (position: Option<Position>)
        ensures
            position == self.position(),
    {
        self.coordinates
    }

    /// Takes the player off the board.
    pub fn leave(&mut self)
        ensures
            final(self).position().is_none(),
            final(self).label() == old(self).label(),
            final(self).code() == old(self).code(),
            final(self).points() == old(self).points(),
    {
        self.coordinates = None;
    }

    /// Adds `points` to the score. Nothing else changes.
    pub fn win_points(&mut self, points: u32)
        requires
            old(self).points() + points <= u32::MAX,
        ensures
            final(self).points() == old(self).points() + points,
            final(self).label() == old(self).label(),
            final(self).code() == old(self).code(),
            final(self).position() == old(self).position(),
    {
        self.score = self.score + points;
    }

    /// Puts the player at `coordinates`.
    pub fn spawn(&mut self, coordinates: Position)
        ensures
            final(self).position() == Some(coordinates),
            final(self).label() == old(self).label(),
            final(self).code() == old(self).code(),
            final(self).points() == old(self).points(),
    {
        self.coordinates = Some(coordinates);
    }

    /// Moves the player one step. A step that cannot be taken takes the
    /// player off the board, and a player off the board stays there.
    pub fn set_move(&mut self, direction: &str)
        ensures
            final(self).position() == stepped_from(old(self).position(), direction@),
            final(self).label() == old(self).label(),
            final(self).code() == old(self).code(),
            final(self).points() == old(self).points(),
    {
        self.coordinates = get_coordinates(self.coordinates, direction);
    }

    /// The name and the score, each on a line of its own.
    pub fn display(&self) -> (text: String)
        ensures
            text@ == self.rendering(),
    {
        let mut text = self.name.clone();
        text.append("\nscore: ");
        push_decimal(&mut text, self.score as u64);
        text.append("\n");
        text
    }

    /// Whether the player stands on the board.
    pub fn is_alive(&self) -> (alive: bool)
        ensures
            alive == self.position().is_some(),
    {
        self.coordinates.is_some()
    }
}

/// One place of a ranking against the next: the higher score comes first,
/// and of two equal scores the one that stood earlier in the roster.
pub open spec fn outranks(first: Player, first_place: int, second: Player, second_place: int) -> bool {
    first.points() > second.points() || (first.points() == second.points() && first_place
        < second_place)
}

/// `ranking` lists the players of `roster` by descending score, equal scores
/// in roster order; `by[i]` is the place in the roster of the player that
/// the ranking has at `i`.
pub open spec fn ranks(roster: Seq<Player>, ranking: Seq<Player>, by: Seq<int>) -> bool {
    &&& ranking.len() == roster.len()
    &&& by.len() == roster.len()
    &&& forall|i: int|
        0 <= i < by.len() ==> 0 <= #[trigger] by[i] < roster.len() && ranking[i] == roster[by[i]]
    &&& forall|i: int, j: int|
        0 <= i < j < by.len() ==> outranks(#[trigger] ranking[i], by[i], #[trigger] ranking[j], by[j])
}

/// The places of a ranking name every place of the roster.
proof fn lemma_every_place(by: Seq<int>, place: int)
    requires
        by.no_duplicates(),
        forall|i: int| 0 <= i < by.len() ==> 0 <= #[trigger] by[i] < by.len(),
        0 <= place < by.len(),
    ensures
        by.contains(place),
{
    let all = set_int_range(0, by.len() as int);
    lemma_int_range(0, by.len() as int);
    by.unique_seq_to_set();
    assert(by.to_set().subset_of(all)) by {
        assert forall|v: int| by.to_set().contains(v) implies all.contains(v) by {}
    }
    vstd::set_lib::lemma_len_subset(by.to_set(), all);
    lemma_subset_equality(by.to_set(), all);
    assert(all.contains(place));
}

/// Two rankings of one roster agree on the place that each rank goes to.
proof fn lemma_same_places(
    roster: Seq<Player>,
    first: Seq<Player>,
    first_by: Seq<int>,
    second: Seq<Player>,
    second_by: Seq<int>,
    upto: int,
)
    requires
        ranks(roster, first, first_by),
        ranks(roster, second, second_by),
        0 <= upto <= roster.len(),
    ensures
        forall|k: int| 0 <= k < upto ==> first_by[k] == second_by[k],
    decreases upto,
{
    if upto > 0 {
        lemma_same_places(roster, first, first_by, second, second_by, upto - 1);
        let i = upto - 1;
        assert(first_by.no_duplicates()) by {
            assert forall|a: int, b: int|
                0 <= a < first_by.len() && 0 <= b < first_by.len() && a != b implies first_by[a]
                != first_by[b] by {}
        }
        assert(second_by.no_duplicates()) by {
            assert forall|a: int, b: int|
                0 <= a < second_by.len() && 0 <= b < second_by.len() && a != b implies second_by[a]
                != second_by[b] by {}
        }
        lemma_every_place(second_by, first_by[i]);
        lemma_every_place(first_by, second_by[i]);
    }
}

/// A roster has one ranking only.
pub proof fn lemma_ranking_unique(
    roster: Seq<Player>,
    first: Seq<Player>,
    first_by: Seq<int>,
    second: Seq<Player>,
    second_by: Seq<int>,
)
    requires
        ranks(roster, first, first_by),
        ranks(roster, second, second_by),
    ensures
        first == second,
        first_by == second_by,
{
    lemma_same_places(roster, first, first_by, second, second_by, roster.len() as int);
    assert forall|i: int| 0 <= i < first.len() implies first[i] == second[i] by {
        assert(first[i] == roster[first_by[i]]);
    }
}

impl Player {
    /// Orders the players for the final list: by descending score, equal
    /// scores in the order in which they came.
    pub fn rank(players: Vec<Player>) -> (ranking: Vec<Player>)
        ensures
            exists|by: Seq<int>| ranks(players@, ranking@, by),
    {
        let mut rest = players;
        let mut ranking: Vec<Player> = Vec::new();
        let ghost mut by: Seq<int> = Seq::empty();
        while rest.len() > 0
            invariant
                rest.len() <= players.len(),
                rest@ == players@.subrange(0, rest.len() as int),
                ranking.len() == players.len() - rest.len(),
                by.len() == ranking.len(),
                forall|i: int|
                    0 <= i < by.len() ==> rest.len() <= #[trigger] by[i] < players.len()
                        && ranking[i] == players[by[i]],
                forall|i: int, j: int|
                    0 <= i < j < by.len() ==> outranks(
                        #[trigger] ranking[i],
                        by[i],
                        #[trigger] ranking[j],
                        by[j],
                    ),
            decreases rest.len(),
        {
            let ghost place = rest.len() - 1;
            let ghost before = ranking@;
            let ghost before_by = by;
            let player = rest.pop().unwrap();
            let mut at: usize = 0;
            while at < ranking.len() && ranking[at].score > player.score
                invariant
                    at <= ranking.len(),
                    forall|i: int| 0 <= i < at ==> (#[trigger] ranking[i]).points() > player.points(),
                decreases ranking.len() - at,
            {
                at += 1;
            }
            ranking.insert(at, player);
            proof {
                by = by.insert(at as int, place);
                assert forall|i: int, j: int| 0 <= i < j < by.len() implies outranks(
                    #[trigger] ranking[i],
                    by[i],
                    #[trigger] ranking[j],
                    by[j],
                ) by {
                    if i == at && at < j - 1 {
                        assert(outranks(
                            before[at as int],
                            before_by[at as int],
                            before[j - 1],
                            before_by[j - 1],
                        ));
                    } else if at < i {
                        assert(outranks(
                            before[i - 1],
                            before_by[i - 1],
                            before[j - 1],
                            before_by[j - 1],
                        ));
                    }
                }
                assert forall|i: int| 0 <= i < by.len() implies rest.len() <= #[trigger] by[i]
                    < players.len() && ranking[i] == players[by[i]] by {}
            }
        }
        assert(ranks(players@, ranking@, by));
        ranking
    }
}

/// Two players are equal when their scores are.
impl PartialEq for Player {
    fn eq(&self, other: &Self) -> (equal: bool) {
        self.score == other.score
    }
}

impl Eq for Player {

}

impl PartialEqSpecImpl for Player {
    open spec fn obeys_eq_spec() -> bool {
        true
    }

    open spec fn eq_spec(&self, other: &Player) -> bool {
        self.points() == other.points()
    }
}

/// Players are ordered by their scores.
impl PartialOrd for Player {
    fn partial_cmp(&self, other: &Self) -> (order: Option<core::cmp::Ordering>) {
        if self.score < other.score {
            Some(core::cmp::Ordering::Less)
        } else if self.score == other.score {
            Some(core::cmp::Ordering::Equal)
        } else {
            Some(core::cmp::Ordering::Greater)
        }
    }
}

impl PartialOrdSpecImpl for Player {
    open spec fn obeys_partial_cmp_spec() -> bool {
        true
    }

    open spec fn partial_cmp_spec(&self, other: &Player) -> Option<core::cmp::Ordering> {
        if self.points() < other.points() {
            Some(core::cmp::Ordering::Less)
        } else if self.points() == other.points() {
            Some(core::cmp::Ordering::Equal)
        } else {
            Some(core::cmp::Ordering::Greater)
        }
    }
}

} // verus!
