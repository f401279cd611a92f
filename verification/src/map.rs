//! The board: a square of glyphs, with the players and the portal on it.

use crate::chance::random_i8;
use crate::flood::{check_if_connected, square};
use crate::grid::{
    blank, filled, matrix_clone, matrix_cols, matrix_grid, matrix_new, matrix_rows, peek, put,
    shaped, MOST_CELLS,
};
use crate::paths::{connected, lemma_linked_self, linked, passable};
use crate::player::{change_coordinates, stepped, Player};
use crate::project_errors::GameError;
use crate::text::push_char;
use crate::{Position, EMPTY, MAX_PLAYERS, PORTAL, WALL};
use simple_matrix::Matrix;
use vstd::prelude::*;

verus! {

/// The glyph that marks the cell of the player with the given code.
pub open spec fn player_glyph(code: int) -> char {
    if code == 1 {
        '1'
    } else if code == 2 {
        '2'
    } else if code == 3 {
        '3'
    } else if code == 4 {
        '4'
    } else {
        ' '
    }
}

/// The glyph that a number of a board pattern stands for: `0` an empty
/// cell, `1` a wall, `2` the portal.
pub open spec fn pattern_glyph(symbol: int) -> char {
    if symbol == 0 {
        EMPTY
    } else if symbol == 1 {
        WALL
    } else {
        PORTAL
    }
}

/// The glyph that a random number stands for when a board is drawn: an
/// empty cell for an even number, a wall for an odd one.
pub open spec fn drawn_glyph(raw: int) -> char {
    if raw % 2 == 0 {
        EMPTY
    } else {
        WALL
    }
}

/// Turns a random number into the glyph of a cell.
pub fn glyph_for(raw: i8) -> (glyph: char)
    ensures
        glyph == drawn_glyph(raw as int),
{
    if raw % 2 == 0 {
        EMPTY
    } else {
        WALL
    }
}

/// Every cell of the board is empty or a wall.
pub open spec fn plain(grid: Seq<Seq<char>>) -> bool {
    forall|r: int, c: int|
        0 <= r < grid.len() && 0 <= c < grid[r].len() ==> #[trigger] grid[r][c] == EMPTY
            || grid[r][c] == WALL
}

/// Draws a board: each cell by itself, empty or a wall.
fn generate_random_map(size: usize) -> (map: Matrix<char>)
    requires
        size > 0,
        size * size <= MOST_CELLS,
    ensures
        shaped(map),
        matrix_rows(map) == size,
        matrix_cols(map) == size,
        plain(matrix_grid(map)),
{
    let mut map = matrix_new(size, size);
    let mut i: usize = 0;
    while i < size
        invariant
            i <= size,
            shaped(map),
            matrix_rows(map) == size,
            matrix_cols(map) == size,
            forall|r: int, c: int|
                0 <= r < i && 0 <= c < size ==> #[trigger] matrix_grid(map)[r][c] == EMPTY
                    || matrix_grid(map)[r][c] == WALL,
        decreases size - i,
    {
        let mut j: usize = 0;
        while j < size
            invariant
                i < size,
                j <= size,
                shaped(map),
                matrix_rows(map) == size,
                matrix_cols(map) == size,
                forall|r: int, c: int|
                    0 <= r < i && 0 <= c < size ==> #[trigger] matrix_grid(map)[r][c] == EMPTY
                        || matrix_grid(map)[r][c] == WALL,
                forall|c: int|
                    0 <= c < j ==> #[trigger] matrix_grid(map)[i as int][c] == EMPTY
                        || matrix_grid(map)[i as int][c] == WALL,
            decreases size - j,
        {
            put(&mut map, i, j, glyph_for(random_i8()));
            j += 1;
        }
        i += 1;
    }
    map
}

/// The longest side of a board: the largest number whose square is no more
/// than `MOST_CELLS`.
pub const MOST_SIDE: usize = 46340;

/// How many times a board is drawn again at most, in search of a connected
/// one.
pub const DRAWS: u64 = 0xffff_ffff_ffff_ffff;

/// Draws boards until one is connected. Should the first board and `DRAWS`
/// more all fail to be connected, the board is left without walls.
fn generate_map(size: usize) -> (map: Matrix<char>)
    requires
        size > 0,
        size * size <= MOST_CELLS,
    ensures
        shaped(map),
        matrix_rows(map) == size,
        matrix_cols(map) == size,
        plain(matrix_grid(map)),
        connected(matrix_grid(map)),
{
    let mut map = generate_random_map(size);
    let mut left: u64 = DRAWS;
    let mut whole = check_if_connected(size, matrix_clone(&map));
    while !whole && left > 0
        invariant
            size > 0,
            size * size <= MOST_CELLS,
            shaped(map),
            matrix_rows(map) == size,
            matrix_cols(map) == size,
            plain(matrix_grid(map)),
            whole == connected(matrix_grid(map)),
        decreases left,
    {
        map = generate_random_map(size);
        whole = check_if_connected(size, matrix_clone(&map));
        left -= 1;
    }
    if whole {
        map
    } else {
        let open = filled(size, size, EMPTY);
        proof {
            lemma_open_board(matrix_grid(open), size as int);
        }
        open
    }
}

/// A board without walls is connected.
pub proof fn lemma_open_board(grid: Seq<Seq<char>>, size: int)
    requires
        size > 0,
        square(grid, size),
        forall|r: int, c: int| 0 <= r < size && 0 <= c < size ==> #[trigger] grid[r][c] == EMPTY,
    ensures
        connected(grid),
        plain(grid),
{
    assert(passable(grid, (0int, 0int)));
    assert forall|a: (int, int), b: (int, int)|
        passable(grid, a) && passable(grid, b) implies linked(grid, a, b) by {
        lemma_open_reach(grid, size, a, b, (if a.0 <= b.0 {
            b.0 - a.0
        } else {
            a.0 - b.0
        }) + (if a.1 <= b.1 {
            b.1 - a.1
        } else {
            a.1 - b.1
        }));
    }
}

/// On a board without walls a walk leads from any cell to any other.
proof fn lemma_open_reach(grid: Seq<Seq<char>>, size: int, a: (int, int), b: (int, int), far: int)
    requires
        square(grid, size),
        forall|r: int, c: int| 0 <= r < size && 0 <= c < size ==> #[trigger] grid[r][c] == EMPTY,
        passable(grid, a),
        passable(grid, b),
        far == (if a.0 <= b.0 {
            b.0 - a.0
        } else {
            a.0 - b.0
        }) + (if a.1 <= b.1 {
            b.1 - a.1
        } else {
            a.1 - b.1
        }),
    ensures
        linked(grid, a, b),
    decreases far,
{
    if far == 0 {
        lemma_linked_self(grid, a);
    } else {
        let near = if a.0 < b.0 {
            (b.0 - 1, b.1)
        } else if a.0 > b.0 {
            (b.0 + 1, b.1)
        } else if a.1 < b.1 {
            (b.0, b.1 - 1)
        } else {
            (b.0, b.1 + 1)
        };
        lemma_open_reach(grid, size, a, near, far - 1);
        crate::paths::lemma_linked_step(grid, a, near, b);
    }
}

/// The glyph of a cell of the board built from `pattern`: the glyph of the
/// pattern's number where the pattern has one, the NUL character where its
/// row is too short.
pub open spec fn pattern_cell(pattern: Seq<Seq<i8>>, r: int, c: int) -> char {
    if c < pattern[r].len() {
        pattern_glyph(pattern[r][c] as int)
    } else {
        '\0'
    }
}

/// The rows of a pattern as sequences of numbers.
pub open spec fn pattern_rows(matrix: &[&[i8]]) -> Seq<Seq<i8>> {
    Seq::new(matrix@.len(), |r: int| matrix@[r]@)
}

/// A pattern has a first row that is not empty, and holds no numbers but
/// `0`, `1` and `2`.
pub open spec fn pattern_ok(pattern: Seq<Seq<i8>>) -> bool {
    &&& pattern.len() > 0
    &&& pattern[0].len() > 0
    &&& pattern.len() * pattern[0].len() <= MOST_CELLS
    &&& forall|r: int, c: int|
        0 <= r < pattern.len() && 0 <= c < pattern[r].len() ==> 0 <= #[trigger] pattern[r][c] <= 2
}

/// The glyph that a number of a board pattern stands for.
fn glyph_of(symbol: i8) -> (glyph: char)
    requires
        0 <= symbol <= 2,
    ensures
        glyph == pattern_glyph(symbol as int),
{
    if symbol == 0 {
        EMPTY
    } else if symbol == 1 {
        WALL
    } else {
        PORTAL
    }
}

/// Builds the store of a board from a pattern of numbers. The store has as
/// many rows as the pattern and as many columns as the pattern's first
/// row; what a longer row holds beyond that is left out.
pub fn from_array(matrix: &[&[i8]]) -> (map: Matrix<char>)
    requires
        pattern_ok(pattern_rows(matrix)),
    ensures
        shaped(map),
        matrix_rows(map) == matrix@.len(),
        matrix_cols(map) == matrix@[0]@.len(),
        forall|r: int, c: int|
            0 <= r < matrix@.len() && 0 <= c < matrix@[0]@.len() ==> #[trigger] matrix_grid(
                map,
            )[r][c] == pattern_cell(pattern_rows(matrix), r, c),
{
    let rows: usize = matrix.len();
    let cols: usize = matrix[0].len();
    let ghost pattern = pattern_rows(matrix);
    let mut map = blank(rows, cols);
    let mut i: usize = 0;
    while i < rows
        invariant
            i <= rows,
            rows == matrix@.len(),
            cols == matrix@[0]@.len(),
            pattern == pattern_rows(matrix),
            pattern_ok(pattern),
            shaped(map),
            matrix_rows(map) == rows,
            matrix_cols(map) == cols,
            forall|r: int, c: int|
                0 <= r < i && 0 <= c < cols ==> #[trigger] matrix_grid(map)[r][c] == pattern_cell(
                    pattern,
                    r,
                    c,
                ),
            forall|r: int, c: int|
                i <= r < rows && 0 <= c < cols ==> #[trigger] matrix_grid(map)[r][c] == '\0',
        decreases rows - i,
    {
        let row = matrix[i];
        let mut j: usize = 0;
        while j < row.len() && j < cols
            invariant
                i < rows,
                j <= row.len(),
                j <= cols,
                rows == matrix@.len(),
                cols == matrix@[0]@.len(),
                pattern == pattern_rows(matrix),
                pattern_ok(pattern),
                pattern[i as int] == row@,
                shaped(map),
                matrix_rows(map) == rows,
                matrix_cols(map) == cols,
                forall|r: int, c: int|
                    0 <= r < i && 0 <= c < cols ==> #[trigger] matrix_grid(map)[r][c]
                        == pattern_cell(pattern, r, c),
                forall|r: int, c: int|
                    i < r < rows && 0 <= c < cols ==> #[trigger] matrix_grid(map)[r][c] == '\0',
                forall|c: int|
                    0 <= c < j ==> #[trigger] matrix_grid(map)[i as int][c] == pattern_cell(
                        pattern,
                        i as int,
                        c,
                    ),
                forall|c: int| j <= c < cols ==> #[trigger] matrix_grid(map)[i as int][c] == '\0',
            decreases row.len() - j,
        {
            put(&mut map, i, j, glyph_of(row[j]));
            j += 1;
        }
        i += 1;
    }
    map
}

/// The glyph that marks the cell of the player with the given code.
fn glyph_of_player(code: usize) -> (glyph: char)
    ensures
        glyph == player_glyph(code as int),
{
    if code == 1 {
        '1'
    } else if code == 2 {
        '2'
    } else if code == 3 {
        '3'
    } else if code == 4 {
        '4'
    } else {
        ' '
    }
}

/// The code of the player whose cell a glyph marks; a glyph that marks no
/// player's cell is refused.
pub fn match_player(field_code: char) -> (result: Result<usize, GameError>)
    ensures
        match result {
            Ok(code) => 1 <= code <= MAX_PLAYERS && field_code == player_glyph(code as int),
            Err(e) => e == GameError::InvalidField && !is_player_glyph(field_code),
        },
{
    if field_code == '1' {
        Ok(1)
    } else if field_code == '2' {
        Ok(2)
    } else if field_code == '3' {
        Ok(3)
    } else if field_code == '4' {
        Ok(4)
    } else {
        Err(GameError::InvalidField)
    }
}

/// The code of the player whose cell a glyph marks, and zero for a glyph
/// that marks no player's cell.
pub fn get_player(field: char) -> (code: usize)
    ensures
        is_player_glyph(field) ==> 1 <= code <= MAX_PLAYERS && field == player_glyph(code as int),
        !is_player_glyph(field) ==> code == 0,
{
    match match_player(field) {
        Ok(player_code) => player_code,
        Err(_) => 0,
    }
}

/// One cell comes before another when the board is read row after row.
pub open spec fn row_major(first: Position, second: Position) -> bool {
    first.0 < second.0 || (first.0 == second.0 && first.1 < second.1)
}

/// The board with one cell overwritten.
pub open spec fn with_cell(grid: Seq<Seq<char>>, r: int, c: int, glyph: char) -> Seq<Seq<char>> {
    grid.update(r, grid[r].update(c, glyph))
}

/// Overwriting a cell and then putting back what it held leaves the board
/// as it was: a player that is put on an empty cell and then taken off the
/// board leaves no trace.
pub proof fn lemma_cell_restored(grid: Seq<Seq<char>>, r: int, c: int, glyph: char)
    requires
        0 <= r < grid.len(),
        0 <= c < grid[r].len(),
    ensures
        with_cell(with_cell(grid, r, c, glyph), r, c, grid[r][c]) == grid,
{
    assert(with_cell(with_cell(grid, r, c, glyph), r, c, grid[r][c]) =~~= grid);
}

/// The glyph marks the cell of a player.
pub open spec fn is_player_glyph(glyph: char) -> bool {
    glyph == '1' || glyph == '2' || glyph == '3' || glyph == '4'
}

/// Where a move from `from` ends, or why it cannot be made. A step that
/// leaves the board is refused before the target is looked at; then
/// the portal and another player are reported, and any cell that is not
/// empty is refused.
pub open spec fn move_target(grid: Seq<Seq<char>>, from: Position, direction: Seq<char>) -> Result<
    Position,
    GameError,
> {
    match stepped(from, direction) {
        Err(e) => Err(e),
        Ok(to) => if to.0 >= grid.len() || to.1 >= grid.len() {
            Err(GameError::Outside)
        } else if grid[to.0 as int][to.1 as int] == EMPTY {
            Ok(to)
        } else if grid[to.0 as int][to.1 as int] == PORTAL {
            Err(GameError::Portal)
        } else if is_player_glyph(grid[to.0 as int][to.1 as int]) {
            Err(GameError::AnotherPlayer)
        } else {
            Err(GameError::InvalidField)
        },
    }
}

/// The cells of one row as text: each glyph followed by a space.
pub open spec fn cells_text(row: Seq<char>) -> Seq<char>
    decreases row.len(),
{
    if row.len() == 0 {
        Seq::empty()
    } else {
        cells_text(row.drop_last()).push(row.last()).push(' ')
    }
}

/// The board as text: row after row, each ended by a line feed.
pub open spec fn board_text(grid: Seq<Seq<char>>) -> Seq<char>
    decreases grid.len(),
{
    if grid.len() == 0 {
        Seq::empty()
    } else {
        board_text(grid.drop_last()) + cells_text(grid.last()).push('\n')
    }
}

/// The labyrinth: a square board of glyphs. `.` is an empty cell that the
/// players can step on, `#` a wall, `0` the portal that ends the game, and a
/// digit from `1` the player with that code.
pub struct Board {
    pub size: usize,
    map: Matrix<char>,
}

impl View for Board {
    type V = Seq<Seq<char>>;

    /// The board as rows of glyphs.
    closed spec fn view(&self) -> Seq<Seq<char>> {
        matrix_grid(self.map)
    }
}

impl Board {
    /// The side of the board: the field `size`, which `side` returns.
    pub closed spec fn extent(&self) -> usize {
        self.size
    }

    /// The store has the shape that the side of the board asks for.
    pub closed spec fn backed(&self) -> bool {
        &&& shaped(self.map)
        &&& matrix_rows(self.map) == self.size
        &&& matrix_cols(self.map) == self.size
        &&& self.size * self.size <= usize::MAX
    }

    /// The board is a square of its side, with at least one cell.
    pub open spec fn well_formed(&self) -> bool {
        &&& self.backed()
        &&& self.extent() > 0
        &&& square(self@, self.extent() as int)
    }

    /// The glyph at a cell of the board.
    pub open spec fn glyph(&self, at: Position) -> char {
        self@[at.0 as int][at.1 as int]
    }

    /// A cell lies on the board.
    pub open spec fn holds(&self, position: Position) -> bool {
        position.0 < self.extent() && position.1 < self.extent()
    }

    /// A board of the given side, drawn at random: empty cells and walls,
    /// with the empty cells in one region. Boards are drawn, each cell by
    /// itself, until one is connected; after `DRAWS` vain draws the board is
    /// left without walls.
    pub fn new(size: usize) -> (map: Board)
        requires
            size > 0,
            size * size <= MOST_CELLS,
        ensures
            map.well_formed(),
            map.extent() == size,
            plain(map@),
            connected(map@),
    {
        Board { size: size, map: generate_map(size) }
    }

    /// A board of the given side, drawn at random as `new` draws it, for
    /// every side that a board can have: one that is not zero and whose
    /// square is no more than `MOST_CELLS`.
    pub fn try_new(size: usize) -> (made: Option<Board>)
        ensures
            made.is_some() == (0 < size && size * size <= MOST_CELLS),
            made matches Some(map) ==> map.well_formed() && map.extent() == size && plain(map@)
                && connected(map@),
    {
        if size == 0 || size > MOST_SIDE {
            proof {
                if size > MOST_SIDE {
                    assert(size * size >= (MOST_SIDE + 1) * (MOST_SIDE + 1)) by (nonlinear_arith)
                        requires
                            size >= MOST_SIDE + 1,
                    ;
                }
            }
            None
        } else {
            proof {
                assert(size * size <= MOST_SIDE * MOST_SIDE) by (nonlinear_arith)
                    requires
                        0 < size <= MOST_SIDE,
                ;
            }
            Some(Board::new(size))
        }
    }

    /// A board built from a pattern of numbers: `0` for an empty cell, `1`
    /// for a wall, `2` for the portal.
    pub fn from_matrix(size: usize, matrix: &[&[i8]]) -> (map: Board)
        requires
            pattern_ok(pattern_rows(matrix)),
        ensures
            map.extent() == size,
            map@.len() == matrix@.len(),
            forall|r: int|
                0 <= r < matrix@.len() ==> (#[trigger] map@[r]).len() == matrix@[0]@.len(),
            forall|r: int, c: int|
                0 <= r < matrix@.len() && 0 <= c < matrix@[0]@.len() ==> #[trigger] map@[r][c]
                    == pattern_cell(pattern_rows(matrix), r, c),
            map.well_formed() == (matrix@.len() == size && matrix@[0]@.len() == size),
    {
        let map = Board { size: size, map: from_array(matrix) };
        map
    }

    /// The glyph at a row and column of the board.
    fn get(&self, x: usize, y: usize) -> (glyph: char)
        requires
            self.well_formed(),
            x < self.extent(),
            y < self.extent(),
        ensures
            glyph == self@[x as int][y as int],
    {
        peek(&self.map, x, y)
    }

    /// The side of the board.
    pub fn side(&self) -> (side: usize)
        ensures
            side == self.extent(),
    {
        self.size
    }

    /// The glyph at a cell of the board.
    pub fn get_field(&self, coordinates: Position) -> (glyph: char)
        requires
            self.well_formed(),
            self.holds(coordinates),
        ensures
            glyph == self@[coordinates.0 as int][coordinates.1 as int],
    {
        self.get(coordinates.0, coordinates.1)
    }

    /// Whether a cell of the board is empty.
    pub fn empty(&self, x: usize, y: usize) -> (free: bool)
        requires
            self.well_formed(),
            x < self.extent(),
            y < self.extent(),
        ensures
            free == (self@[x as int][y as int] == EMPTY),
    {
        self.get(x, y) == EMPTY
    }

    /// Overwrites the glyph at a row and column of the board.
    fn set(&mut self, x: usize, y: usize, glyph: char)
        requires
            old(self).well_formed(),
            x < old(self).extent(),
            y < old(self).extent(),
        ensures
            final(self).well_formed(),
            final(self).extent() == old(self).extent(),
            final(self)@ == with_cell(old(self)@, x as int, y as int, glyph),
    {
        put(&mut self.map, x, y, glyph);
    }

    /// Makes a cell of the board empty.
    fn set_empty(&mut self, coordinates: Position)
        requires
            old(self).well_formed(),
            old(self).holds(coordinates),
        ensures
            final(self).well_formed(),
            final(self).extent() == old(self).extent(),
            final(self)@ == with_cell(
                old(self)@,
                coordinates.0 as int,
                coordinates.1 as int,
                EMPTY,
            ),
    {
        self.set(coordinates.0, coordinates.1, EMPTY);
    }

    /// Puts the portal on an empty cell. Any other cell is refused, and the
    /// board stays as it is.
    pub fn spawn_portal(&mut self, position: Position) -> (result: Result<(), GameError>)
        requires
            old(self).well_formed(),
            old(self).holds(position),
        ensures
            final(self).well_formed(),
            final(self).extent() == old(self).extent(),
            result.is_ok() == (old(self)@[position.0 as int][position.1 as int] == EMPTY),
            result.is_ok() ==> final(self)@ == with_cell(
                old(self)@,
                position.0 as int,
                position.1 as int,
                PORTAL,
            ),
            result.is_err() ==> result == Err::<(), GameError>(GameError::InvalidCoordinates)
                && final(self)@ == old(self)@,
    {
        if self.empty(position.0, position.1) {
            self.set(position.0, position.1, PORTAL);
            Ok(())
        } else {
            Err(GameError::InvalidCoordinates)
        }
    }

    /// Where a move from `from` would end, or why it cannot be made. The
    /// board does not change.
    pub fn target(&self, from: Position, direction: &str) -> (result: Result<Position, GameError>)
        requires
            self.well_formed(),
        ensures
            result == move_target(self@, from, direction@),
            result matches Ok(to) ==> self.holds(to),
    {
        match change_coordinates(from, direction) {
            Ok(to) => {
                if to.0 >= self.size || to.1 >= self.size {
                    return Err(GameError::Outside);
                }
                let glyph = self.get(to.0, to.1);
                if glyph == EMPTY {
                    Ok(to)
                } else if glyph == PORTAL {
                    Err(GameError::Portal)
                } else if match_player(glyph).is_ok() {
                    Err(GameError::AnotherPlayer)
                } else {
                    Err(GameError::InvalidField)
                }
            },
            Err(e) => Err(e),
        }
    }

    /// Puts a player on an empty cell. Any other cell is refused, and
    /// neither the board nor the player changes.
    pub fn spawn_player(&mut self, player: &mut Player, position: Position) -> (result: Result<
        (),
        GameError,
    >)
        requires
            old(self).well_formed(),
            old(self).holds(position),
            1 <= old(player).code() <= MAX_PLAYERS,
        ensures
            final(self).well_formed(),
            final(self).extent() == old(self).extent(),
            final(player).code() == old(player).code(),
            final(player).label() == old(player).label(),
            final(player).points() == old(player).points(),
            result.is_ok() == (old(self)@[position.0 as int][position.1 as int] == EMPTY),
            result.is_ok() ==> final(self)@ == with_cell(
                old(self)@,
                position.0 as int,
                position.1 as int,
                player_glyph(old(player).code() as int),
            ) && final(player).position() == Some(position),
            result.is_err() ==> result == Err::<(), GameError>(GameError::InvalidCoordinates)
                && final(self)@ == old(self)@ && *final(player) == *old(player),
    {
        if self.empty(position.0, position.1) {
            self.set(position.0, position.1, glyph_of_player(player.get_code()));
            player.spawn(position);
            Ok(())
        } else {
            Err(GameError::InvalidCoordinates)
        }
    }

    /// Tries to move a player one step. The step is made only onto an empty
    /// cell: the cell left becomes empty, and the cell entered takes the
    /// player's glyph. Otherwise nothing changes, and the result says why:
    /// the direction is none, the step leaves the board, the cell holds the
    /// portal or another player, or it cannot be entered.
    pub fn move_player(&mut self, player: &mut Player, direction: &str) -> (result: Result<
        (),
        GameError,
    >)
        requires
            old(self).well_formed(),
            old(player).position().is_some(),
            old(self).holds(old(player).position().unwrap()),
            1 <= old(player).code() <= MAX_PLAYERS,
        ensures
            final(self).well_formed(),
            final(self).extent() == old(self).extent(),
            final(player).code() == old(player).code(),
            final(player).label() == old(player).label(),
            final(player).points() == old(player).points(),
            match move_target(old(self)@, old(player).position().unwrap(), direction@) {
                Ok(to) => {
                    &&& result.is_ok()
                    &&& final(self).holds(to)
                    &&& final(player).position() == Some(to)
                    &&& final(self)@ == with_cell(
                        with_cell(
                            old(self)@,
                            old(player).position().unwrap().0 as int,
                            old(player).position().unwrap().1 as int,
                            EMPTY,
                        ),
                        to.0 as int,
                        to.1 as int,
                        player_glyph(old(player).code() as int),
                    )
                    &&& final(self).glyph(old(player).position().unwrap()) == EMPTY
                    &&& final(self).glyph(to) == player_glyph(old(player).code() as int)
                },
                Err(e) => {
                    &&& result == Err::<(), GameError>(e)
                    &&& final(self)@ == old(self)@
                    &&& *final(player) == *old(player)
                },
            },
    {
        let from = player.get_position().unwrap();
        match self.target(from, direction) {
            Ok(to) => {
                self.set_empty(from);
                player.spawn(to);
                self.set(to.0, to.1, glyph_of_player(player.get_code()));
                Ok(())
            },
            Err(e) => Err(e),
        }
    }

    /// Takes a player off the board: its cell becomes empty, and it stands
    /// nowhere.
    pub fn kill_player(&mut self, player: &mut Player)
        requires
            old(self).well_formed(),
            old(player).position().is_some(),
            old(self).holds(old(player).position().unwrap()),
        ensures
            final(self).well_formed(),
            final(self).extent() == old(self).extent(),
            final(self)@ == with_cell(
                old(self)@,
                old(player).position().unwrap().0 as int,
                old(player).position().unwrap().1 as int,
                EMPTY,
            ),
            final(player).position().is_none(),
            final(player).code() == old(player).code(),
            final(player).label() == old(player).label(),
            final(player).points() == old(player).points(),
    {
        let coordinates = player.get_position().unwrap();
        player.leave();
        self.set_empty(coordinates);
    }

    /// Whether the cells of the board that are no walls form exactly one
    /// region.
    pub fn is_connected(&self) -> (whole: bool)
        requires
            self.well_formed(),
        ensures
            whole == connected(self@),
    {
        check_if_connected(self.size, matrix_clone(&self.map))
    }

    /// `cells` lists the empty cells of the board, each once, row after
    /// row.
    pub open spec fn lists_free(&self, cells: Seq<Position>) -> bool {
        &&& forall|k: int|
            0 <= k < cells.len() ==> self.holds(#[trigger] cells[k])
                && self@[cells[k].0 as int][cells[k].1 as int] == EMPTY
        &&& forall|r: int, c: int|
            0 <= r < self.extent() && 0 <= c < self.extent() && #[trigger] self@[r][c] == EMPTY
                ==> exists|k: int|
                0 <= k < cells.len() && #[trigger] cells[k] == Position(r as usize, c as usize)
        &&& forall|k: int, l: int|
            0 <= k < l < cells.len() ==> row_major(#[trigger] cells[k], #[trigger] cells[l])
    }

    /// Two lists of the empty cells agree as far as the first goes.
    proof fn lemma_free_prefix(&self, first: Seq<Position>, second: Seq<Position>, upto: int)
        requires
            self.lists_free(first),
            self.lists_free(second),
            0 <= upto <= first.len(),
        ensures
            upto <= second.len(),
            forall|k: int| 0 <= k < upto ==> first[k] == second[k],
        decreases upto,
    {
        if upto > 0 {
            self.lemma_free_prefix(first, second, upto - 1);
            let i = upto - 1;
            let cell = first[i];
            assert(self.holds(cell));
            assert(self@[cell.0 as int][cell.1 as int] == EMPTY);
            let j = choose|j: int|
                0 <= j < second.len() && #[trigger] second[j] == Position(
                    cell.0 as int as usize,
                    cell.1 as int as usize,
                );
            assert(second[j] == cell);
            if j < i {
                assert(first[j] == second[j]);
                assert(row_major(first[j], first[i]));
            }
            let other = second[i];
            assert(self.holds(other));
            assert(self@[other.0 as int][other.1 as int] == EMPTY);
            let h = choose|h: int|
                0 <= h < first.len() && #[trigger] first[h] == Position(
                    other.0 as int as usize,
                    other.1 as int as usize,
                );
            assert(first[h] == other);
            if h < i {
                assert(first[h] == second[h]);
                assert(row_major(second[h], second[i]));
            }
            if j > i && h > i {
                assert(row_major(second[i], second[j]));
                assert(row_major(first[i], first[h]));
            }
        }
    }

    /// A board has one list of its empty cells only.
    pub proof fn lemma_free_unique(&self, first: Seq<Position>, second: Seq<Position>)
        requires
            self.lists_free(first),
            self.lists_free(second),
        ensures
            first == second,
    {
        self.lemma_free_prefix(first, second, first.len() as int);
        self.lemma_free_prefix(second, first, second.len() as int);
    }

    /// When an empty cell is taken, the list of the empty cells loses that
    /// cell and keeps the others.
    pub proof fn lemma_free_taken(&self, after: Board, cells: Seq<Position>, at: int, glyph: char)
        requires
            self.well_formed(),
            self.lists_free(cells),
            0 <= at < cells.len(),
            glyph != EMPTY,
            after.extent() == self.extent(),
            after@ == with_cell(self@, cells[at].0 as int, cells[at].1 as int, glyph),
        ensures
            after.lists_free(cells.remove(at)),
    {
        let fewer = cells.remove(at);
        assert forall|k: int| 0 <= k < fewer.len() implies after.holds(#[trigger] fewer[k])
            && after@[fewer[k].0 as int][fewer[k].1 as int] == EMPTY by {}
        assert forall|r: int, c: int|
            0 <= r < after.extent() && 0 <= c < after.extent() && #[trigger] after@[r][c]
                == EMPTY implies exists|k: int|
            0 <= k < fewer.len() && #[trigger] fewer[k] == Position(r as usize, c as usize) by {
            let was = choose|k: int|
                0 <= k < cells.len() && #[trigger] cells[k] == Position(r as usize, c as usize);
            if was < at {
                assert(fewer[was] == cells[was]);
            } else {
                assert(fewer[was - 1] == cells[was]);
            }
        }
        assert forall|k: int, l: int| 0 <= k < l < fewer.len() implies row_major(
            #[trigger] fewer[k],
            #[trigger] fewer[l],
        ) by {}
    }

    /// The empty cells of the board, row after row.
    pub fn free_cells(&self) -> (cells: Vec<Position>)
        requires
            self.well_formed(),
        ensures
            self.lists_free(cells@),
    {
        let mut cells: Vec<Position> = Vec::new();
        let mut x: usize = 0;
        while x < self.size
            invariant
                self.well_formed(),
                self.size == self.extent(),
                x <= self.size,
                forall|k: int|
                    0 <= k < cells.len() ==> self.holds(#[trigger] cells[k]) && cells[k].0 < x
                        && self@[cells[k].0 as int][cells[k].1 as int] == EMPTY,
                forall|r: int, c: int|
                    0 <= r < x && 0 <= c < self.extent() && #[trigger] self@[r][c] == EMPTY
                        ==> exists|k: int|
                        0 <= k < cells.len() && #[trigger] cells[k] == Position(
                            r as usize,
                            c as usize,
                        ),
                forall|k: int, l: int|
                    0 <= k < l < cells.len() ==> row_major(#[trigger] cells[k], #[trigger] cells[l]),
            decreases self.size - x,
        {
            let mut y: usize = 0;
            while y < self.size
                invariant
                    self.well_formed(),
                    self.size == self.extent(),
                    x < self.size,
                    y <= self.size,
                    forall|k: int|
                        0 <= k < cells.len() ==> self.holds(#[trigger] cells[k]) && (cells[k].0 < x
                            || (cells[k].0 == x && cells[k].1 < y))
                            && self@[cells[k].0 as int][cells[k].1 as int] == EMPTY,
                    forall|r: int, c: int|
                        (0 <= r < x && 0 <= c < self.extent() || r == x && 0 <= c < y)
                            && #[trigger] self@[r][c] == EMPTY ==> exists|k: int|
                            0 <= k < cells.len() && #[trigger] cells[k] == Position(
                                r as usize,
                                c as usize,
                            ),
                    forall|k: int, l: int|
                        0 <= k < l < cells.len() ==> row_major(
                            #[trigger] cells[k],
                            #[trigger] cells[l],
                        ),
                decreases self.size - y,
            {
                if self.get(x, y) == EMPTY {
                    let ghost found = cells@;
                    cells.push(Position(x, y));
                    proof {
                        assert forall|r: int, c: int|
                            (0 <= r < x && 0 <= c < self.extent() || r == x && 0 <= c < y + 1)
                                && #[trigger] self@[r][c] == EMPTY implies exists|k: int|
                            0 <= k < cells.len() && #[trigger] cells[k] == Position(
                                r as usize,
                                c as usize,
                            ) by {
                            if r == x && c == y {
                                assert(cells[found.len() as int] == Position(
                                    r as usize,
                                    c as usize,
                                ));
                            } else {
                                let k = choose|k: int|
                                    0 <= k < found.len() && #[trigger] found[k] == Position(
                                        r as usize,
                                        c as usize,
                                    );
                                assert(cells[k] == found[k]);
                            }
                        }
                    }
                }
                y += 1;
            }
            x += 1;
        }
        cells
    }

    /// The board as text, one line for each row.
    pub fn display(&self) -> (text: String)
        requires
            self.well_formed(),
        ensures
            text@ == board_text(self@),
    {
        let mut text = String::new();
        let mut x: usize = 0;
        while x < self.size
            invariant
                self.well_formed(),
                x <= self.extent(),
                self.size == self.extent(),
                text@ == board_text(self@.take(x as int)),
            decreases self.size - x,
        {
            let ghost head = text@;
            let mut y: usize = 0;
            while y < self.size
                invariant
                    self.well_formed(),
                    x < self.extent(),
                    y <= self.extent(),
                    self.size == self.extent(),
                    text@ == head + cells_text(self@[x as int].take(y as int)),
                decreases self.size - y,
            {
                push_char(&mut text, self.get(x, y));
                push_char(&mut text, ' ');
                proof {
                    let row = self@[x as int];
                    assert(row.take(y + 1).drop_last() == row.take(y as int));
                }
                y += 1;
            }
            push_char(&mut text, '\n');
            proof {
                assert(self@[x as int].take(self.size as int) == self@[x as int]);
                assert(self@.take(x + 1).drop_last() == self@.take(x as int));
            }
            x += 1;
        }
        proof {
            assert(self@.take(self.size as int) == self@);
        }
        text
    }
}

} // verus!
