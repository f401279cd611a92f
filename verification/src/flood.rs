//! Flood fill over the board, and the test for connectedness built on it.

use crate::grid::{lemma_cell_place, matrix_cols, matrix_grid, matrix_rows, peek, put, shaped};
use crate::paths::{
    adjacent, connected, is_path, joins, lemma_linked_back, lemma_linked_self,
    lemma_linked_step, lemma_linked_through, lemma_path_reaches, linked, passable,
};
use crate::WALL;
use simple_matrix::Matrix;
use vstd::prelude::*;
use vstd::set_lib::{lemma_int_range, lemma_len_subset, set_int_range};

verus! {

/// A cell of the queue as a cell of the board.
pub open spec fn cell_of(place: (usize, usize)) -> (int, int) {
    (place.0 as int, place.1 as int)
}

/// Both boards are squares of the given side.
pub open spec fn square(grid: Seq<Seq<char>>, size: int) -> bool {
    &&& grid.len() == size
    &&& forall|r: int| 0 <= r < size ==> (#[trigger] grid[r]).len() == size
}

/// What holds while a fill from `start` is under way: `now` is `before`
/// with some cells walled up, each of them reachable from `start` and
/// entered in the queue, and `marked` holds the places of the queued cells.
spec fn sweeping(
    before: Seq<Seq<char>>,
    now: Seq<Seq<char>>,
    queue: Seq<(usize, usize)>,
    marked: Set<int>,
    start: (int, int),
    size: int,
) -> bool {
    &&& square(before, size)
    &&& square(now, size)
    &&& forall|k: int|
        0 <= k < queue.len() ==> {
            &&& (#[trigger] queue[k]).0 < size
            &&& queue[k].1 < size
            &&& linked(before, start, cell_of(queue[k]))
            &&& now[queue[k].0 as int][queue[k].1 as int] == WALL
        }
    &&& forall|r: int, c: int|
        0 <= r < size && 0 <= c < size ==> #[trigger] now[r][c] == before[r][c] || now[r][c] == WALL
    &&& forall|r: int, c: int|
        0 <= r < size && 0 <= c < size && #[trigger] now[r][c] != before[r][c] ==> exists|k: int|
            0 <= k < queue.len() && cell_of(#[trigger] queue[k]) == (r, c)
    &&& marked.finite()
    &&& marked.len() == queue.len()
    &&& forall|e: int| marked.contains(e) ==> 0 <= e < size * size
    &&& forall|r: int, c: int|
        0 <= r < size && 0 <= c < size && marked.contains(c + r * size) ==> #[trigger] now[r][c]
            == WALL
}

/// No more cells are queued than the board has.
proof fn lemma_queue_bound(marked: Set<int>, size: int)
    requires
        0 <= size,
        marked.finite(),
        forall|e: int| marked.contains(e) ==> 0 <= e < size * size,
    ensures
        marked.len() <= size * size,
{
    assert(0 <= size * size) by (nonlinear_arith)
        requires
            0 <= size,
    ;
    lemma_int_range(0, size * size);
    lemma_len_subset(marked, set_int_range(0, size * size));
}

/// Walls up the cell at `x`, `y` and queues it, unless it is a wall already.
fn visit(
    size: usize,
    map: &mut Matrix<char>,
    queue: &mut Vec<(usize, usize)>,
    x: usize,
    y: usize,
    Ghost(before): Ghost<Seq<Seq<char>>>,
    Ghost(start): Ghost<(int, int)>,
    Ghost(from): Ghost<int>,
    Ghost(marked): Ghost<Set<int>>,
) -> (now: Ghost<Set<int>>)
    requires
        shaped(*old(map)),
        matrix_rows(*old(map)) == size,
        matrix_cols(*old(map)) == size,
        x < size,
        y < size,
        0 <= from < old(queue).len(),
        adjacent(cell_of(old(queue)[from]), (x as int, y as int)),
        sweeping(before, matrix_grid(*old(map)), old(queue)@, marked, start, size as int),
    ensures
        shaped(*final(map)),
        matrix_rows(*final(map)) == size,
        matrix_cols(*final(map)) == size,
        sweeping(before, matrix_grid(*final(map)), final(queue)@, now@, start, size as int),
        matrix_grid(*final(map))[x as int][y as int] == WALL,
        final(queue).len() >= old(queue).len(),
        forall|k: int| 0 <= k < old(queue).len() ==> final(queue)[k] == old(queue)[k],
        forall|r: int, c: int|
            0 <= r < size && 0 <= c < size && matrix_grid(*old(map))[r][c] == WALL
                ==> #[trigger] matrix_grid(*final(map))[r][c] == WALL,
{
    if peek(map, x, y) != WALL {
        let ghost waiting = queue@;
        proof {
            lemma_linked_step(before, start, cell_of(waiting[from]), (x as int, y as int));
            lemma_cell_place(size as int, size as int, x as int, y as int);
        }
        put(map, x, y, WALL);
        queue.push((x, y));
        proof {
            let now = matrix_grid(*map);
            let place = y + x * size;
            let grown = marked.insert(place);
            assert forall|r: int, c: int|
                0 <= r < size && 0 <= c < size && #[trigger] now[r][c]
                    != before[r][c] implies exists|k: int|
                0 <= k < queue@.len() && cell_of(#[trigger] queue@[k]) == (r, c) by {
                if r == x && c == y {
                    assert(cell_of(queue@[waiting.len() as int]) == (r, c));
                } else {
                    let k = choose|k: int|
                        0 <= k < waiting.len() && cell_of(#[trigger] waiting[k]) == (r, c);
                    assert(cell_of(queue@[k]) == (r, c));
                }
            }
            assert forall|r: int, c: int|
                0 <= r < size && 0 <= c < size && grown.contains(
                    c + r * size,
                ) implies #[trigger] now[r][c] == WALL by {}
            assert forall|k: int| 0 <= k < queue@.len() implies {
                &&& (#[trigger] queue@[k]).0 < size
                &&& queue@[k].1 < size
                &&& linked(before, start, cell_of(queue@[k]))
                &&& now[queue@[k].0 as int][queue@[k].1 as int] == WALL
            } by {}
        }
        Ghost(marked.insert(y + x * size))
    } else {
        Ghost(marked)
    }
}

/// Once a fill is over, every cell that a walk from its start passes has
/// been walled up.
proof fn lemma_fill_covers(
    before: Seq<Seq<char>>,
    now: Seq<Seq<char>>,
    size: int,
    path: Seq<(int, int)>,
    upto: int,
)
    requires
        square(before, size),
        square(now, size),
        is_path(before, path),
        0 <= upto < path.len(),
        now[path[0].0][path[0].1] == WALL,
        forall|a: (int, int), b: (int, int)|
            0 <= a.0 < size && 0 <= a.1 < size && 0 <= b.0 < size && 0 <= b.1 < size && passable(
                before,
                a,
            ) && now[a.0][a.1] == WALL && #[trigger] adjacent(a, b) ==> now[b.0][b.1] == WALL,
    ensures
        now[path[upto].0][path[upto].1] == WALL,
    decreases upto,
{
    if upto > 0 {
        lemma_fill_covers(before, now, size, path, upto - 1);
    }
}

/// Walls up every cell that can be reached from the start, and no other.
pub(crate) fn traverse(size: usize, map: &mut Matrix<char>, start_x: usize, start_y: usize)
    requires
        shaped(*old(map)),
        matrix_rows(*old(map)) == size,
        matrix_cols(*old(map)) == size,
        start_x < size,
        start_y < size,
        matrix_grid(*old(map))[start_x as int][start_y as int] != WALL,
    ensures
        shaped(*final(map)),
        matrix_rows(*final(map)) == size,
        matrix_cols(*final(map)) == size,
        forall|r: int, c: int|
            0 <= r < size && 0 <= c < size ==> #[trigger] matrix_grid(*final(map))[r][c] == (if linked(
                matrix_grid(*old(map)),
                (start_x as int, start_y as int),
                (r, c),
            ) {
                WALL
            } else {
                matrix_grid(*old(map))[r][c]
            }),
{
    let ghost before = matrix_grid(*map);
    let ghost start = (start_x as int, start_y as int);
    proof {
        lemma_linked_self(before, start);
        lemma_cell_place(size as int, size as int, start_x as int, start_y as int);
    }
    put(map, start_x, start_y, WALL);
    let mut queue: Vec<(usize, usize)> = Vec::new();
    queue.push((start_x, start_y));
    let ghost mut marked: Set<int> = Set::empty().insert(start_y + start_x * size);
    let mut head: usize = 0;
    proof {
        let now = matrix_grid(*map);
        assert forall|r: int, c: int|
            0 <= r < size && 0 <= c < size && #[trigger] now[r][c] != before[r][c] implies exists|
            k: int,
        |
            0 <= k < queue@.len() && cell_of(#[trigger] queue@[k]) == (r, c) by {
            assert(cell_of(queue@[0]) == (r, c));
        }
    }
    while head < queue.len()
        invariant
            shaped(*map),
            matrix_rows(*map) == size,
            matrix_cols(*map) == size,
            start == (start_x as int, start_y as int),
            sweeping(before, matrix_grid(*map), queue@, marked, start, size as int),
            head <= queue.len(),
            queue.len() >= 1,
            cell_of(queue[0]) == start,
            forall|k: int, r: int, c: int|
                0 <= k < head && 0 <= r < size && 0 <= c < size && adjacent(
                    cell_of(#[trigger] queue[k]),
                    (r, c),
                ) ==> #[trigger] matrix_grid(*map)[r][c] == WALL,
        decreases size * size - head,
    {
        let (x, y) = queue[head];
        if x > 0 {
            let fresh = visit(
                size,
                map,
                &mut queue,
                x - 1,
                y,
                Ghost(before),
                Ghost(start),
                Ghost(head as int),
                Ghost(marked),
            );
            proof {
                marked = fresh@;
            }
        }
        if x < size - 1 {
            let fresh = visit(
                size,
                map,
                &mut queue,
                x + 1,
                y,
                Ghost(before),
                Ghost(start),
                Ghost(head as int),
                Ghost(marked),
            );
            proof {
                marked = fresh@;
            }
        }
        if y > 0 {
            let fresh = visit(
                size,
                map,
                &mut queue,
                x,
                y - 1,
                Ghost(before),
                Ghost(start),
                Ghost(head as int),
                Ghost(marked),
            );
            proof {
                marked = fresh@;
            }
        }
        if y < size - 1 {
            let fresh = visit(
                size,
                map,
                &mut queue,
                x,
                y + 1,
                Ghost(before),
                Ghost(start),
                Ghost(head as int),
                Ghost(marked),
            );
            proof {
                marked = fresh@;
            }
        }
        proof {
            lemma_queue_bound(marked, size as int);
            assert forall|k: int, r: int, c: int|
                0 <= k < head + 1 && 0 <= r < size && 0 <= c < size && adjacent(
                    cell_of(#[trigger] queue[k]),
                    (r, c),
                ) implies #[trigger] matrix_grid(*map)[r][c] == WALL by {}
        }
        head += 1;
    }
    proof {
        let now = matrix_grid(*map);
        assert forall|r: int, c: int| 0 <= r < size && 0 <= c < size implies #[trigger] now[r][c]
            == (if linked(before, start, (r, c)) {
            WALL
        } else {
            before[r][c]
        }) by {
            if linked(before, start, (r, c)) {
                let path = choose|path: Seq<(int, int)>| joins(before, path, start, (r, c));
                lemma_fill_covers(before, now, size as int, path, path.len() - 1);
            }
        }
    }
}

/// A cell can be reached from one of the seeds.
spec fn swept(grid: Seq<Seq<char>>, seeds: Seq<(int, int)>, cell: (int, int)) -> bool {
    exists|k: int| 0 <= k < seeds.len() && linked(grid, #[trigger] seeds[k], cell)
}

/// What holds while the regions of `before` are counted: `now` is `before`
/// with the regions of the seeds walled up, and no seed can be reached from
/// another.
spec fn counting(
    before: Seq<Seq<char>>,
    now: Seq<Seq<char>>,
    seeds: Seq<(int, int)>,
    size: int,
) -> bool {
    &&& square(before, size)
    &&& square(now, size)
    &&& forall|k: int| 0 <= k < seeds.len() ==> passable(before, #[trigger] seeds[k])
    &&& forall|k: int, l: int|
        0 <= k < l < seeds.len() ==> !linked(before, #[trigger] seeds[k], #[trigger] seeds[l])
    &&& forall|r: int, c: int|
        0 <= r < size && 0 <= c < size ==> #[trigger] now[r][c] == (if swept(before, seeds, (r, c)) {
            WALL
        } else {
            before[r][c]
        })
}

/// From a cell that is still open, the same cells can be reached on the
/// board as it is now and on the board as it was.
proof fn lemma_same_region(
    before: Seq<Seq<char>>,
    now: Seq<Seq<char>>,
    seeds: Seq<(int, int)>,
    size: int,
    start: (int, int),
    cell: (int, int),
)
    requires
        counting(before, now, seeds, size),
        passable(now, start),
    ensures
        linked(now, start, cell) == linked(before, start, cell),
        passable(before, start),
        !swept(before, seeds, start),
{
    if linked(now, start, cell) {
        let path = choose|path: Seq<(int, int)>| joins(now, path, start, cell);
        assert forall|i: int| 0 <= i < path.len() implies passable(before, #[trigger] path[i]) by {}
        assert(joins(before, path, start, cell));
    }
    if linked(before, start, cell) {
        let path = choose|path: Seq<(int, int)>| joins(before, path, start, cell);
        assert forall|i: int| 0 <= i < path.len() implies passable(now, #[trigger] path[i]) by {
            lemma_path_reaches(before, path, i);
            if swept(before, seeds, path[i]) {
                let k = choose|k: int|
                    0 <= k < seeds.len() && linked(before, #[trigger] seeds[k], path[i]);
                lemma_linked_back(before, start, path[i]);
                lemma_linked_through(before, seeds[k], path[i], start);
            }
        }
        assert(joins(now, path, start, cell));
    }
}

/// Whether the cells of the board that are no walls form exactly one
/// region.
pub(crate) fn check_if_connected(size: usize, matrix: Matrix<char>) -> (whole: bool)
    requires
        shaped(matrix),
        matrix_rows(matrix) == size,
        matrix_cols(matrix) == size,
        size * size <= usize::MAX,
    ensures
        whole == connected(matrix_grid(matrix)),
{
    let ghost before = matrix_grid(matrix);
    let ghost mut seeds: Seq<(int, int)> = Seq::empty();
    let mut parts: usize = 0;
    let mut map = matrix;
    let mut i: usize = 0;
    while i < size
        invariant
            i <= size,
            size * size <= usize::MAX,
            shaped(map),
            matrix_rows(map) == size,
            matrix_cols(map) == size,
            counting(before, matrix_grid(map), seeds, size as int),
            seeds.len() == parts,
            parts <= i * size,
            forall|r: int, c: int|
                0 <= r < i && 0 <= c < size ==> #[trigger] matrix_grid(map)[r][c] == WALL,
        decreases size - i,
    {
        let mut j: usize = 0;
        while j < size
            invariant
                i < size,
                j <= size,
                size * size <= usize::MAX,
                shaped(map),
                matrix_rows(map) == size,
                matrix_cols(map) == size,
                counting(before, matrix_grid(map), seeds, size as int),
                seeds.len() == parts,
                parts <= i * size + j,
                forall|r: int, c: int|
                    0 <= r < i && 0 <= c < size ==> #[trigger] matrix_grid(map)[r][c] == WALL,
                forall|c: int| 0 <= c < j ==> #[trigger] matrix_grid(map)[i as int][c] == WALL,
            decreases size - j,
        {
            proof {
                assert(i * size + size <= size * size) by (nonlinear_arith)
                    requires
                        i < size,
                ;
            }
            if peek(&map, i, j) != WALL {
                let ghost was = matrix_grid(map);
                let ghost start = (i as int, j as int);
                traverse(size, &mut map, i, j);
                parts += 1;
                proof {
                    let now = matrix_grid(map);
                    let grown = seeds.push(start);
                    assert forall|k: int, l: int| 0 <= k < l < grown.len() implies !linked(
                        before,
                        #[trigger] grown[k],
                        #[trigger] grown[l],
                    ) by {}
                    assert forall|r: int, c: int|
                        0 <= r < size && 0 <= c < size implies #[trigger] now[r][c] == (if swept(
                        before,
                        grown,
                        (r, c),
                    ) {
                        WALL
                    } else {
                        before[r][c]
                    }) by {
                        lemma_same_region(before, was, seeds, size as int, start, (r, c));
                        if swept(before, seeds, (r, c)) {
                            let k = choose|k: int|
                                0 <= k < seeds.len() && linked(before, #[trigger] seeds[k], (r, c));
                            assert(linked(before, grown[k], (r, c)));
                        } else if linked(before, start, (r, c)) {
                            assert(linked(before, grown[seeds.len() as int], (r, c)));
                        }
                    }
                    assert forall|k: int| 0 <= k < grown.len() implies passable(
                        before,
                        #[trigger] grown[k],
                    ) by {}
                    lemma_linked_self(was, start);
                    assert forall|r: int, c: int| 0 <= r < i && 0 <= c < size implies #[trigger] now[r][c]
                        == WALL by {}
                    assert forall|c: int| 0 <= c < j + 1 implies #[trigger] now[i as int][c]
                        == WALL by {}
                    seeds = grown;
                }
            }
            j += 1;
        }
        proof {
            assert(i * size + size == (i + 1) * size) by (nonlinear_arith);
        }
        i += 1;
    }
    proof {
        let now = matrix_grid(map);
        assert forall|cell: (int, int)| passable(before, cell) implies swept(
            before,
            seeds,
            cell,
        ) by {
            assert(now[cell.0][cell.1] == WALL);
        }
        if parts == 1 {
            assert(passable(before, seeds[0]));
            assert forall|a: (int, int), b: (int, int)|
                passable(before, a) && passable(before, b) implies linked(before, a, b) by {
                lemma_linked_back(before, seeds[0], a);
                lemma_linked_through(before, a, seeds[0], b);
            }
        } else if parts == 0 {
            assert forall|cell: (int, int)| !passable(before, cell) by {}
        } else {
            assert(passable(before, seeds[0]));
            assert(passable(before, seeds[1]));
        }
    }
    parts == 1
}

} // verus!
