//! The search for a route over the free cells of an occupancy grid.
//!
//! A route moves from cell to cell in steps of at most one cell along each
//! axis and enters only free cells of the grid. The search itself is the
//! breadth-first search of the `pathfinding` crate.

use vstd::prelude::*;
use crate::grid::{grid_blocked, grid_shape, in_shape, Grid};

verus! {

/// The eight neighbour offsets, ordered by their first and then their second
/// component.
pub open spec fn offset_at(j: int) -> (int, int) {
    if j == 0 {
        (-1, -1)
    } else if j == 1 {
        (-1, 0)
    } else if j == 2 {
        (-1, 1)
    } else if j == 3 {
        (0, -1)
    } else if j == 4 {
        (0, 1)
    } else if j == 5 {
        (1, -1)
    } else if j == 6 {
        (1, 0)
    } else {
        (1, 1)
    }
}

/// `cell` moved by `offset`, if that stays within `shape`.
pub open spec fn shifted(cell: (usize, usize), offset: (int, int), shape: (usize, usize)) -> Option<
    (usize, usize),
> {
    let x = cell.0 + offset.0;
    let y = cell.1 + offset.1;
    if 0 <= x < shape.0 && 0 <= y < shape.1 {
        Some((x as usize, y as usize))
    } else {
        None
    }
}

/// Whether two distinct cells touch, along an edge or at a corner.
pub open spec fn adjacent(a: (usize, usize), b: (usize, usize)) -> bool {
    a != b && -1 <= b.0 - a.0 <= 1 && -1 <= b.1 - a.1 <= 1
}

/// Whether a route may move from `a` to `b`: the cells touch, and `b` is a free
/// cell of the grid.
pub open spec fn step(
    shape: (usize, usize),
    blocked: Set<(usize, usize)>,
    a: (usize, usize),
    b: (usize, usize),
) -> bool {
    in_shape(shape, b) && !blocked.contains(b) && adjacent(a, b)
}

/// Whether `route` leads from `start` to `goal` by steps.
pub open spec fn is_route(
    shape: (usize, usize),
    blocked: Set<(usize, usize)>,
    start: (usize, usize),
    goal: (usize, usize),
    route: Seq<(usize, usize)>,
) -> bool {
    &&& route.len() >= 1
    &&& route[0] == start
    &&& route[route.len() - 1] == goal
    &&& forall|k: int|
        0 <= k < route.len() - 1 ==> step(shape, blocked, #[trigger] route[k], route[k + 1])
}

/// Whether offset number `j` leads from `cell` to the free grid cell `to`.
pub open spec fn reaches(
    shape: (usize, usize),
    blocked: Set<(usize, usize)>,
    cell: (usize, usize),
    j: int,
    to: (usize, usize),
) -> bool {
    shifted(cell, offset_at(j), shape) == Some(to) && !blocked.contains(to)
}

/// The free grid cells that the first `n` offsets reach from `cell`, in the
/// order of the offsets.
pub open spec fn neighbours_upto(
    shape: (usize, usize),
    blocked: Set<(usize, usize)>,
    cell: (usize, usize),
    n: int,
) -> Seq<(usize, usize)>
    decreases n,
{
    if n <= 0 {
        Seq::empty()
    } else {
        let before = neighbours_upto(shape, blocked, cell, n - 1);
        match shifted(cell, offset_at(n - 1), shape) {
            Some(to) => if blocked.contains(to) {
                before
            } else {
                before.push(to)
            },
            None => before,
        }
    }
}

/// The neighbours of `cell` that a route may step to, in expansion order.
pub open spec fn open_neighbours_of(
    shape: (usize, usize),
    blocked: Set<(usize, usize)>,
    cell: (usize, usize),
) -> Seq<(usize, usize)> {
    neighbours_upto(shape, blocked, cell, 8)
}

/// A cell is among the first `n` neighbours exactly if one of the first `n`
/// offsets reaches it.
proof fn lemma_neighbours_upto_contains(
    shape: (usize, usize),
    blocked: Set<(usize, usize)>,
    cell: (usize, usize),
    n: int,
    to: (usize, usize),
)
    requires
        0 <= n,
    ensures
        neighbours_upto(shape, blocked, cell, n).contains(to) <==> exists|j: int|
            0 <= j < n && #[trigger] reaches(shape, blocked, cell, j, to),
    decreases n,
{
    if n > 0 {
        lemma_neighbours_upto_contains(shape, blocked, cell, n - 1, to);
        let before = neighbours_upto(shape, blocked, cell, n - 1);
        let now = neighbours_upto(shape, blocked, cell, n);
        if now.contains(to) {
            let i = choose|i: int| 0 <= i < now.len() && now[i] == to;
            if i < before.len() {
                assert(before[i] == to);
                assert(before.contains(to));
                let j = choose|j: int| 0 <= j < n - 1 && #[trigger] reaches(shape, blocked, cell, j, to);
                assert(reaches(shape, blocked, cell, j, to));
            } else {
                assert(reaches(shape, blocked, cell, n - 1, to));
            }
        }
        if exists|j: int| 0 <= j < n && #[trigger] reaches(shape, blocked, cell, j, to) {
            let j = choose|j: int| 0 <= j < n && #[trigger] reaches(shape, blocked, cell, j, to);
            if j < n - 1 {
                assert(before.contains(to));
                let i = choose|i: int| 0 <= i < before.len() && before[i] == to;
                assert(now[i] == to);
            } else {
                assert(now == before.push(to));
                assert(now[before.len() as int] == to);
            }
        }
    }
}

/// The open neighbours of a cell are exactly the cells one step away.
pub proof fn lemma_open_neighbours_are_steps(
    shape: (usize, usize),
    blocked: Set<(usize, usize)>,
    cell: (usize, usize),
    to: (usize, usize),
)
    ensures
        open_neighbours_of(shape, blocked, cell).contains(to) <==> step(shape, blocked, cell, to),
{
    lemma_neighbours_upto_contains(shape, blocked, cell, 8, to);
    if step(shape, blocked, cell, to) {
        let dx = to.0 - cell.0;
        let dy = to.1 - cell.1;
        let j: int = if dx == -1 {
            dy + 1
        } else if dx == 0 {
            if dy == -1 {
                3
            } else {
                4
            }
        } else {
            dy + 6
        };
        assert(offset_at(j) == (dx, dy));
        assert(reaches(shape, blocked, cell, j, to));
    }
    if open_neighbours_of(shape, blocked, cell).contains(to) {
        let j = choose|j: int| 0 <= j < 8 && #[trigger] reaches(shape, blocked, cell, j, to);
        assert(shifted(cell, offset_at(j), shape) == Some(to));
    }
}

/// The offset with number `j`.
fn neighbour_offset(j: usize) -> (offset: (isize, isize))
    requires
        j < 8,
    ensures
        (offset.0 as int, offset.1 as int) == offset_at(j as int),
{
    if j == 0 {
        (-1, -1)
    } else if j == 1 {
        (-1, 0)
    } else if j == 2 {
        (-1, 1)
    } else if j == 3 {
        (0, -1)
    } else if j == 4 {
        (0, 1)
    } else if j == 5 {
        (1, -1)
    } else if j == 6 {
        (1, 0)
    } else {
        (1, 1)
    }
}

/// Moves `coord` by `add`, and gives the cell only if it lies within `shape`.
pub fn checked_coord_add(coord: (usize, usize), add: (isize, isize), shape: (usize, usize)) -> (moved:
    Option<(usize, usize)>)
    ensures
        moved == shifted(coord, (add.0 as int, add.1 as int), shape),
{
    let x: i128 = coord.0 as i128 + add.0 as i128;
    let y: i128 = coord.1 as i128 + add.1 as i128;
    if 0 <= x && x < shape.0 as i128 && 0 <= y && y < shape.1 as i128 {
        Some((x as usize, y as usize))
    } else {
        None
    }
}

/// The free cells of the grid that touch `cell`, in the order of the offsets.
pub fn open_neighbours(grid: &Grid, cell: (usize, usize)) -> (found: Vec<(usize, usize)>)
    ensures
        found@ == open_neighbours_of(grid_shape(*grid), grid_blocked(*grid), cell),
        forall|to: (usize, usize)|
            found@.contains(to) <==> step(grid_shape(*grid), grid_blocked(*grid), cell, to),
{
    let mut found: Vec<(usize, usize)> = Vec::new();
    let mut j: usize = 0;
    while j < 8
        invariant
            j <= 8,
            found@ == neighbours_upto(grid_shape(*grid), grid_blocked(*grid), cell, j as int),
        decreases 8 - j,
    {
        let shape = grid.shape();
        match checked_coord_add(cell, neighbour_offset(j), shape) {
            Some(to) => {
                if grid.blocked_at(to) == Some(false) {
                    found.push(to);
                }
            },
            None => {},
        }
        j += 1;
    }
    proof {
        assert forall|to: (usize, usize)|
            found@.contains(to) <==> step(grid_shape(*grid), grid_blocked(*grid), cell, to) by {
            lemma_open_neighbours_are_steps(grid_shape(*grid), grid_blocked(*grid), cell, to);
        }
    }
    found
}

/// Whether two cells are the same.
pub fn same_cell(a: (usize, usize), b: (usize, usize)) -> (same: bool)
    ensures
        same == (a == b),
{
    a.0 == b.0 && a.1 == b.1
}

/// The route that the breadth-first search returns on a grid of dimensions
/// `shape` with the cells `blocked`, from `start` to `goal`.
pub uninterp spec fn bfs_path(
    shape: (usize, usize),
    blocked: Set<(usize, usize)>,
    start: (usize, usize),
    goal: (usize, usize),
) -> Option<Seq<(usize, usize)>>;

/// What a search result must be: a route that no other route undercuts in
/// length, or nothing where there is no route at all.
pub open spec fn shortest_or_none(
    shape: (usize, usize),
    blocked: Set<(usize, usize)>,
    start: (usize, usize),
    goal: (usize, usize),
    found: Option<Seq<(usize, usize)>>,
) -> bool {
    match found {
        Some(route) => is_route(shape, blocked, start, goal, route) && forall|
            other: Seq<(usize, usize)>,
        | #[trigger]
            is_route(shape, blocked, start, goal, other) ==> route.len() <= other.len(),
        None => forall|other: Seq<(usize, usize)>|
            !#[trigger] is_route(shape, blocked, start, goal, other),
    }
}

/// The cells of a search result as a sequence.
pub open spec fn route_view(found: Option<Vec<(usize, usize)>>) -> Option<Seq<(usize, usize)>> {
    match found {
        Some(route) => Some(route@),
        None => None,
    }
}

/// `pathfinding::directed::bfs::bfs` from `start`, with the open neighbours of a
/// cell as its successors, until `goal` is met. By its documentation the call
/// returns a shortest path, start and end included, or `None` if there is no
/// path; which of several shortest paths it returns is fixed by the order of
/// the successors, so the result has a name.
#[verifier::external_body]
pub(crate) fn breadth_first(grid: &Grid, start: (usize, usize), goal: (usize, usize)) -> (found:
    Option<Vec<(usize, usize)>>)
    ensures
        route_view(found) == bfs_path(grid_shape(*grid), grid_blocked(*grid), start, goal),
        shortest_or_none(grid_shape(*grid), grid_blocked(*grid), start, goal, route_view(found)),
{
    pathfinding::directed::bfs::bfs(
        &start,
        |cell| open_neighbours(grid, *cell),
        |cell| same_cell(*cell, goal),
    )
}

} // verus!
