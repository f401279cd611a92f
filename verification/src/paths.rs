//! What it means for a board to be connected: every cell that is no wall
//! can be reached from every other by steps between neighbours that are no
//! walls either.

use crate::WALL;
use vstd::prelude::*;

verus! {

/// A cell lies on the board and holds no wall.
pub open spec fn passable(grid: Seq<Seq<char>>, cell: (int, int)) -> bool {
    &&& 0 <= cell.0 < grid.len()
    &&& 0 <= cell.1 < grid[cell.0].len()
    &&& grid[cell.0][cell.1] != WALL
}

/// Two cells share an edge.
pub open spec fn adjacent(a: (int, int), b: (int, int)) -> bool {
    ||| a.0 == b.0 && (a.1 == b.1 + 1 || a.1 + 1 == b.1)
    ||| a.1 == b.1 && (a.0 == b.0 + 1 || a.0 + 1 == b.0)
}

/// A walk over passable cells, each next to the one before it.
pub open spec fn is_path(grid: Seq<Seq<char>>, path: Seq<(int, int)>) -> bool {
    &&& path.len() > 0
    &&& forall|i: int| 0 <= i < path.len() ==> passable(grid, #[trigger] path[i])
    &&& forall|i: int| 0 <= i < path.len() - 1 ==> adjacent(#[trigger] path[i], path[i + 1])
}

/// A walk leads from `from` to `to`.
pub open spec fn joins(grid: Seq<Seq<char>>, path: Seq<(int, int)>, from: (int, int), to: (
    int,
    int,
)) -> bool {
    is_path(grid, path) && path[0] == from && path[path.len() - 1] == to
}

/// One cell can be reached from the other.
pub open spec fn linked(grid: Seq<Seq<char>>, from: (int, int), to: (int, int)) -> bool {
    exists|path: Seq<(int, int)>| joins(grid, path, from, to)
}

/// The board has a passable cell, and all its passable cells can be reached
/// from one another: they form exactly one region.
pub open spec fn connected(grid: Seq<Seq<char>>) -> bool {
    &&& exists|cell: (int, int)| passable(grid, cell)
    &&& forall|a: (int, int), b: (int, int)|
        passable(grid, a) && passable(grid, b) ==> linked(grid, a, b)
}

/// A passable cell can be reached from itself.
pub proof fn lemma_linked_self(grid: Seq<Seq<char>>, cell: (int, int))
    requires
        passable(grid, cell),
    ensures
        linked(grid, cell, cell),
{
    assert(joins(grid, seq![cell], cell, cell));
}

/// A walk can be taken one step further.
pub proof fn lemma_linked_step(grid: Seq<Seq<char>>, from: (int, int), to: (int, int), next: (
    int,
    int,
))
    requires
        linked(grid, from, to),
        adjacent(to, next),
        passable(grid, next),
    ensures
        linked(grid, from, next),
{
    let path = choose|path: Seq<(int, int)>| joins(grid, path, from, to);
    let longer = path.push(next);
    assert forall|i: int| 0 <= i < longer.len() - 1 implies adjacent(
        #[trigger] longer[i],
        longer[i + 1],
    ) by {}
    assert forall|i: int| 0 <= i < longer.len() implies passable(grid, #[trigger] longer[i]) by {}
    assert(joins(grid, longer, from, next));
}

/// A walk can be taken backwards.
pub proof fn lemma_linked_back(grid: Seq<Seq<char>>, from: (int, int), to: (int, int))
    requires
        linked(grid, from, to),
    ensures
        linked(grid, to, from),
{
    let path = choose|path: Seq<(int, int)>| joins(grid, path, from, to);
    let n = path.len() as int;
    let back = Seq::new(path.len(), |i: int| path[n - 1 - i]);
    assert forall|i: int| 0 <= i < back.len() - 1 implies adjacent(
        #[trigger] back[i],
        back[i + 1],
    ) by {}
    assert forall|i: int| 0 <= i < back.len() implies passable(grid, #[trigger] back[i]) by {}
    assert(joins(grid, back, to, from));
}

/// Two walks that meet make one.
pub proof fn lemma_linked_through(grid: Seq<Seq<char>>, from: (int, int), via: (int, int), to: (
    int,
    int,
))
    requires
        linked(grid, from, via),
        linked(grid, via, to),
    ensures
        linked(grid, from, to),
{
    let first = choose|path: Seq<(int, int)>| joins(grid, path, from, via);
    let second = choose|path: Seq<(int, int)>| joins(grid, path, via, to);
    let whole = first + second.subrange(1, second.len() as int);
    assert forall|i: int| 0 <= i < whole.len() implies passable(grid, #[trigger] whole[i]) by {}
    assert forall|i: int| 0 <= i < whole.len() - 1 implies adjacent(
        #[trigger] whole[i],
        whole[i + 1],
    ) by {}
    assert(joins(grid, whole, from, to));
}

/// Every cell of a walk can be reached from its first.
pub proof fn lemma_path_reaches(grid: Seq<Seq<char>>, path: Seq<(int, int)>, upto: int)
    requires
        is_path(grid, path),
        0 <= upto < path.len(),
    ensures
        linked(grid, path[0], path[upto]),
{
    let part = path.subrange(0, upto + 1);
    assert forall|i: int| 0 <= i < part.len() implies passable(grid, #[trigger] part[i]) by {}
    assert forall|i: int| 0 <= i < part.len() - 1 implies adjacent(
        #[trigger] part[i],
        part[i + 1],
    ) by {}
    assert(joins(grid, part, path[0], path[upto]));
}

} // verus!
