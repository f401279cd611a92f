//! The backing store of the board: a matrix of glyphs kept by `simple_matrix`.

use simple_matrix::Matrix;
use vstd::prelude::*;

verus! {

/// `simple_matrix::Matrix`: a matrix of fixed shape. Nothing is known of
/// what it holds but through the functions below.
#[verifier::external_type_specification]
#[verifier::external_body]
#[verifier::reject_recursive_types(T)]
pub struct ExMatrix<T>(Matrix<T>);

/// The cells of a matrix, row after row.
pub uninterp spec fn matrix_cells(m: Matrix<char>) -> Seq<char>;

/// The number of rows a matrix was made with.
pub uninterp spec fn matrix_rows(m: Matrix<char>) -> nat;

/// The number of columns a matrix was made with.
pub uninterp spec fn matrix_cols(m: Matrix<char>) -> nat;

/// The most cells that a matrix can be made with: `Matrix::new` counts the
/// cells that it fills with a 32-bit signed counter.
pub const MOST_CELLS: usize = 0x7fff_ffff;

/// `Matrix::new`: a matrix of the given shape whose cells all hold the
/// default glyph, the NUL character. The call fails for a shape without
/// cells and for one with more than `MOST_CELLS` cells.
#[verifier::external_body]
pub(crate) fn matrix_new(rows: usize, cols: usize) -> (m: Matrix<char>)
    requires
        rows > 0,
        cols > 0,
        rows * cols <= MOST_CELLS,
    ensures
        matrix_rows(m) == rows,
        matrix_cols(m) == cols,
        matrix_cells(m) == Seq::new((rows * cols) as nat, |i: int| '\0'),
{
    Matrix::new(rows, cols)
}

/// `Matrix::get`: the glyph at a row and column inside the matrix, `None`
/// outside it.
#[verifier::external_body]
pub(crate) fn matrix_get(m: &Matrix<char>, row: usize, col: usize) -> (r: Option<char>)
    ensures
        r == (if row < matrix_rows(*m) && col < matrix_cols(*m) {
            Some(matrix_cells(*m)[col + row * matrix_cols(*m)])
        } else {
            None
        }),
{
    m.get(row, col).copied()
}

/// `Matrix::set`: overwrites the glyph at a row and column inside the matrix
/// and reports `true`; outside it nothing changes and the report is `false`.
#[verifier::external_body]
pub(crate) fn matrix_set(m: &mut Matrix<char>, row: usize, col: usize, value: char) -> (r: bool)
    ensures
        matrix_rows(*final(m)) == matrix_rows(*old(m)),
        matrix_cols(*final(m)) == matrix_cols(*old(m)),
        r == (row < matrix_rows(*old(m)) && col < matrix_cols(*old(m))),
        r ==> matrix_cells(*final(m)) == matrix_cells(*old(m)).update(
            col + row * matrix_cols(*old(m)),
            value,
        ),
        !r ==> matrix_cells(*final(m)) == matrix_cells(*old(m)),
{
    m.set(row, col, value)
}

/// `Matrix::clone`: a matrix of the same shape with the same cells.
#[verifier::external_body]
pub(crate) fn matrix_clone(m: &Matrix<char>) -> (copy: Matrix<char>)
    ensures
        matrix_rows(copy) == matrix_rows(*m),
        matrix_cols(copy) == matrix_cols(*m),
        matrix_cells(copy) == matrix_cells(*m),
{
    m.clone()
}

/// A matrix holds one cell for each row and column.
pub open spec fn shaped(m: Matrix<char>) -> bool {
    matrix_cells(m).len() == matrix_rows(m) * matrix_cols(m)
}

/// The cells of a matrix as rows of glyphs.
pub open spec fn matrix_grid(m: Matrix<char>) -> Seq<Seq<char>> {
    Seq::new(
        matrix_rows(m),
        |row: int| Seq::new(matrix_cols(m), |col: int| matrix_cells(m)[col + row * matrix_cols(m)]),
    )
}

/// The place of a cell in a row-major store is inside the store, and no
/// other cell of the matrix shares it.
pub proof fn lemma_cell_place(rows: int, cols: int, row: int, col: int)
    requires
        0 <= row < rows,
        0 <= col < cols,
    ensures
        0 <= col + row * cols < rows * cols,
        forall|r: int, c: int|
            0 <= r < rows && 0 <= c < cols && (r != row || c != col) ==> #[trigger] (c + r * cols)
                != col + row * cols,
{
    assert(0 <= row * cols && row * cols + cols <= rows * cols) by (nonlinear_arith)
        requires
            0 <= row < rows,
            0 < cols,
    ;
    assert forall|r: int, c: int|
        0 <= r < rows && 0 <= c < cols && (r != row || c != col) implies #[trigger] (c + r * cols)
        != col + row * cols by {
        if r < row {
            assert(r * cols + cols <= row * cols) by (nonlinear_arith)
                requires
                    r < row,
                    0 < cols,
            ;
        } else if r > row {
            assert(row * cols + cols <= r * cols) by (nonlinear_arith)
                requires
                    row < r,
                    0 < cols,
            ;
        }
    }
}

/// Makes a matrix of the given shape with the NUL character in every cell.
pub(crate) fn blank(rows: usize, cols: usize) -> (m: Matrix<char>)
    requires
        rows > 0,
        cols > 0,
        rows * cols <= MOST_CELLS,
    ensures
        shaped(m),
        matrix_rows(m) == rows,
        matrix_cols(m) == cols,
        forall|r: int, c: int|
            0 <= r < rows && 0 <= c < cols ==> #[trigger] matrix_grid(m)[r][c] == '\0',
{
    let m = matrix_new(rows, cols);
    proof {
        assert forall|r: int, c: int| 0 <= r < rows && 0 <= c < cols implies #[trigger] matrix_grid(
            m,
        )[r][c] == '\0' by {
            lemma_cell_place(rows as int, cols as int, r, c);
        }
    }
    m
}

/// Makes a matrix of the given shape with `glyph` in every cell.
pub(crate) fn filled(rows: usize, cols: usize, glyph: char) -> (m: Matrix<char>)
    requires
        rows > 0,
        cols > 0,
        rows * cols <= MOST_CELLS,
    ensures
        shaped(m),
        matrix_rows(m) == rows,
        matrix_cols(m) == cols,
        forall|r: int, c: int|
            0 <= r < rows && 0 <= c < cols ==> #[trigger] matrix_grid(m)[r][c] == glyph,
{
    let mut m = matrix_new(rows, cols);
    let mut row: usize = 0;
    while row < rows
        invariant
            row <= rows,
            shaped(m),
            matrix_rows(m) == rows,
            matrix_cols(m) == cols,
            forall|r: int, c: int|
                0 <= r < row && 0 <= c < cols ==> #[trigger] matrix_grid(m)[r][c] == glyph,
        decreases rows - row,
    {
        let mut col: usize = 0;
        while col < cols
            invariant
                row < rows,
                col <= cols,
                shaped(m),
                matrix_rows(m) == rows,
                matrix_cols(m) == cols,
                forall|r: int, c: int|
                    0 <= r < row && 0 <= c < cols ==> #[trigger] matrix_grid(m)[r][c] == glyph,
                forall|c: int| 0 <= c < col ==> #[trigger] matrix_grid(m)[row as int][c] == glyph,
            decreases cols - col,
        {
            put(&mut m, row, col, glyph);
            col += 1;
        }
        row += 1;
    }
    m
}

/// The glyph at a cell of the matrix.
pub(crate) fn peek(m: &Matrix<char>, row: usize, col: usize) -> (glyph: char)
    requires
        shaped(*m),
        row < matrix_rows(*m),
        col < matrix_cols(*m),
    ensures
        glyph == matrix_grid(*m)[row as int][col as int],
{
    match matrix_get(m, row, col) {
        Some(glyph) => glyph,
        None => '\0',
    }
}

/// Overwrites one cell of the matrix; every other cell keeps its glyph.
pub(crate) fn put(m: &mut Matrix<char>, row: usize, col: usize, glyph: char)
    requires
        shaped(*old(m)),
        row < matrix_rows(*old(m)),
        col < matrix_cols(*old(m)),
    ensures
        shaped(*final(m)),
        matrix_rows(*final(m)) == matrix_rows(*old(m)),
        matrix_cols(*final(m)) == matrix_cols(*old(m)),
        matrix_grid(*final(m)) == matrix_grid(*old(m)).update(
            row as int,
            matrix_grid(*old(m))[row as int].update(col as int, glyph),
        ),
{
    let ghost before = *m;
    proof {
        lemma_cell_place(
            matrix_rows(*m) as int,
            matrix_cols(*m) as int,
            row as int,
            col as int,
        );
    }
    let _ = matrix_set(m, row, col, glyph);
    proof {
        let after = matrix_grid(*m);
        let want = matrix_grid(before).update(
            row as int,
            matrix_grid(before)[row as int].update(col as int, glyph),
        );
        assert forall|r: int| 0 <= r < after.len() implies after[r] =~= want[r] by {
            assert forall|c: int| 0 <= c < after[r].len() implies after[r][c] == want[r][c] by {
                lemma_cell_place(matrix_rows(before) as int, matrix_cols(before) as int, r, c);
            }
        }
    }
}

} // verus!
