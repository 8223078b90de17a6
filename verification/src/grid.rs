//! The occupancy grid: which cells the inflated obstacles block.
//!
//! The cells are kept in a two-dimensional `ndarray` array of flags. The
//! array is reached only through four small functions (`all_free`, `dim`,
//! `mark`, `is_marked`), whose contracts are taken on trust; everything else
//! in this module is proved against them.

use vstd::prelude::*;
use crate::frame::{CellRect, GridFrame};
use crate::scene::Obstacle;

verus! {

/// A grid of cells, each blocked or free.
///
/// The flags live in an `ndarray::Array2<bool>`. The verifier does not take
/// a declaration of `ndarray::ArrayBase` (its parameters are bound by traits of
/// `ndarray`), so the struct as a whole is opaque to it: what a grid holds is
/// spoken of through [`grid_blocked`] and [`grid_shape`] only.
#[verifier::external_body]
pub struct Grid {
    cells: ndarray::Array2<bool>,
}

/// The cells of a grid that are blocked.
pub uninterp spec fn grid_blocked(grid: Grid) -> Set<(usize, usize)>;

/// The dimensions, width then height, that a grid was made with.
pub uninterp spec fn grid_shape(grid: Grid) -> (usize, usize);

/// Whether `cell` lies within dimensions `shape`.
pub open spec fn in_shape(shape: (usize, usize), cell: (usize, usize)) -> bool {
    cell.0 < shape.0 && cell.1 < shape.1
}

/// The cells blocked by the footprints of `obstacles` for a robot of `radius`.
pub open spec fn blocked_cells(frame: GridFrame, obstacles: Seq<Obstacle>, radius: i64) -> Set<
    (usize, usize),
> {
    Set::new(
        |cell: (usize, usize)|
            exists|k: int|
                0 <= k < obstacles.len() && frame.footprint_of(
                    #[trigger] obstacles[k],
                    radius,
                ).covers(cell),
    )
}

/// The cells of `rect` that come before `(x, y)` when the rectangle is walked
/// column by column.
spec fn rect_before(rect: CellRect, x: int, y: int) -> Set<(usize, usize)> {
    Set::new(|cell: (usize, usize)| rect.covers(cell) && (cell.0 < x || (cell.0 == x && cell.1 < y)))
}

/// The cells of `rect` that lie within dimensions `shape`.
pub open spec fn rect_cells_within(rect: CellRect, shape: (usize, usize)) -> Set<(usize, usize)> {
    Set::new(|cell: (usize, usize)| rect.covers(cell) && in_shape(shape, cell))
}

/// All cells of `rect`.
pub open spec fn rect_cells(rect: CellRect) -> Set<(usize, usize)> {
    Set::new(|cell: (usize, usize)| rect.covers(cell))
}

impl Grid {
    /// `ndarray::Array2::from_elem` with the flag `false`: an array of the given
    /// dimensions in which no cell is blocked. The call panics where the number
    /// of cells overflows `isize`, which `requires` rules out.
    #[verifier::external_body]
    fn all_free(width: usize, height: usize) -> (grid: Grid)
        requires
            width >= 1,
            height >= 1,
            width * height <= isize::MAX,
        ensures
            grid_shape(grid) == (width, height),
            grid_blocked(grid) == Set::<(usize, usize)>::empty(),
    {
        Grid { cells: ndarray::Array2::from_elem((width, height), false) }
    }

    /// `ndarray`'s `dim` on the two-dimensional array: its dimensions.
    #[verifier::external_body]
    fn dim(&self) -> (shape: (usize, usize))
        ensures
            shape == grid_shape(*self),
    {
        self.cells.dim()
    }

    /// `ndarray`'s indexed write `array[[x, y]] = true`: the cell becomes
    /// blocked, every other cell and the dimensions stay. The index must lie
    /// within the array.
    #[verifier::external_body]
    fn mark(&mut self, x: usize, y: usize)
        requires
            in_shape(grid_shape(*old(self)), (x, y)),
        ensures
            grid_shape(*final(self)) == grid_shape(*old(self)),
            grid_blocked(*final(self)) == grid_blocked(*old(self)).insert((x, y)),
    {
        self.cells[[x, y]] = true;
    }

    /// `ndarray`'s indexed read `array[[x, y]]`: whether the cell is blocked.
    /// The index must lie within the array.
    #[verifier::external_body]
    fn is_marked(&self, x: usize, y: usize) -> (flag: bool)
        requires
            in_shape(grid_shape(*self), (x, y)),
        ensures
            flag == grid_blocked(*self).contains((x, y)),
    {
        self.cells[[x, y]]
    }

    /// Blocks every cell of `rect`, which must lie within the grid.
    fn stamp_within(&mut self, rect: CellRect)
        requires
            rect.x1 < grid_shape(*old(self)).0,
            rect.y1 < grid_shape(*old(self)).1,
        ensures
            grid_shape(*final(self)) == grid_shape(*old(self)),
            grid_blocked(*final(self)) == grid_blocked(*old(self)).union(rect_cells(rect)),
    {
        if rect.x0 > rect.x1 || rect.y0 > rect.y1 {
            assert(grid_blocked(*self) =~= grid_blocked(*self).union(rect_cells(rect)));
            return ;
        }
        let ghost before = grid_blocked(*self);
        let ghost shape = grid_shape(*self);
        let mut x: usize = rect.x0;
        assert(before =~= before.union(rect_before(rect, x as int, rect.y0 as int)));
        while x <= rect.x1
            invariant
                rect.x0 <= x <= rect.x1 + 1,
                rect.y0 <= rect.y1,
                rect.x1 < shape.0,
                rect.y1 < shape.1,
                grid_shape(*self) == shape,
                grid_blocked(*self) == before.union(rect_before(rect, x as int, rect.y0 as int)),
            decreases rect.x1 + 1 - x,
        {
            let mut y: usize = rect.y0;
            while y <= rect.y1
                invariant
                    rect.x0 <= x <= rect.x1,
                    rect.y0 <= y <= rect.y1 + 1,
                    rect.x1 < shape.0,
                    rect.y1 < shape.1,
                    grid_shape(*self) == shape,
                    grid_blocked(*self) == before.union(rect_before(rect, x as int, y as int)),
                decreases rect.y1 + 1 - y,
            {
                self.mark(x, y);
                assert(before.union(rect_before(rect, x as int, y as int)).insert((x, y))
                    =~= before.union(rect_before(rect, x as int, y + 1)));
                y += 1;
            }
            assert(rect_before(rect, x as int, rect.y1 + 1) =~= rect_before(
                rect,
                x + 1,
                rect.y0 as int,
            ));
            x += 1;
        }
        assert(rect_before(rect, rect.x1 + 1, rect.y0 as int) =~= rect_cells(rect));
    }

    /// Blocks every cell of `rect` that is a cell of the grid.
    pub fn stamp(&mut self, rect: CellRect)
        ensures
            grid_shape(*final(self)) == grid_shape(*old(self)),
            grid_blocked(*final(self)) == grid_blocked(*old(self)).union(
                rect_cells_within(rect, grid_shape(*old(self))),
            ),
    {
        let shape = self.dim();
        if shape.0 == 0 || shape.1 == 0 {
            assert(grid_blocked(*self) =~= grid_blocked(*self).union(
                rect_cells_within(rect, shape),
            ));
            return ;
        }
        let clipped = CellRect {
            x0: rect.x0,
            x1: if rect.x1 < shape.0 {
                rect.x1
            } else {
                shape.0 - 1
            },
            y0: rect.y0,
            y1: if rect.y1 < shape.1 {
                rect.y1
            } else {
                shape.1 - 1
            },
        };
        assert(rect_cells(clipped) =~= rect_cells_within(rect, shape));
        self.stamp_within(clipped);
    }

    /// The occupancy grid of a scene: the dimensions of `frame`, and blocked
    /// exactly where the footprint of one of `obstacles` lies.
    pub fn build(frame: &GridFrame, obstacles: &Vec<Obstacle>, radius: i64) -> (grid: Grid)
        requires
            frame.wf(),
        ensures
            grid_shape(grid) == frame.shape(),
            grid_blocked(grid) == blocked_cells(*frame, obstacles@, radius),
    {
        let mut grid = Grid::all_free(frame.width, frame.height);
        let mut k: usize = 0;
        assert(grid_blocked(grid) =~= blocked_cells(*frame, obstacles@.take(0), radius));
        while k < obstacles.len()
            invariant
                k <= obstacles.len(),
                frame.wf(),
                grid_shape(grid) == frame.shape(),
                grid_blocked(grid) == blocked_cells(*frame, obstacles@.take(k as int), radius),
            decreases obstacles.len() - k,
        {
            let rect = frame.footprint(&obstacles[k], radius);
            grid.stamp(rect);
            proof {
                assert(rect_cells_within(rect, frame.shape()) =~= rect_cells(rect));
                let done = obstacles@.take(k as int);
                let next = obstacles@.take(k + 1);
                assert forall|cell: (usize, usize)|
                    blocked_cells(*frame, next, radius).contains(cell) <==> (blocked_cells(
                        *frame,
                        done,
                        radius,
                    ).contains(cell) || rect.covers(cell)) by {
                    if blocked_cells(*frame, done, radius).contains(cell) {
                        let j = choose|j: int|
                            0 <= j < done.len() && frame.footprint_of(
                                #[trigger] done[j],
                                radius,
                            ).covers(cell);
                        assert(next[j] == done[j]);
                    }
                    if rect.covers(cell) {
                        assert(next[k as int] == obstacles@[k as int]);
                    }
                    if blocked_cells(*frame, next, radius).contains(cell) {
                        let j = choose|j: int|
                            0 <= j < next.len() && frame.footprint_of(
                                #[trigger] next[j],
                                radius,
                            ).covers(cell);
                        if j < k {
                            assert(done[j] == next[j]);
                        }
                    }
                }
                assert(grid_blocked(grid) =~= blocked_cells(*frame, next, radius));
            }
            k += 1;
        }
        assert(obstacles@.take(k as int) =~= obstacles@);
        grid
    }

    /// The grid's dimensions, width then height.
    pub fn shape(&self) -> (shape: (usize, usize))
        ensures
            shape == grid_shape(*self),
    {
        self.dim()
    }

    /// Whether `cell` is blocked, or `None` for a cell outside the grid.
    pub fn blocked_at(&self, cell: (usize, usize)) -> (flag: Option<bool>)
        ensures
            flag == (if in_shape(grid_shape(*self), cell) {
                Some(grid_blocked(*self).contains(cell))
            } else {
                None
            }),
    {
        let shape = self.dim();
        if cell.0 < shape.0 && cell.1 < shape.1 {
            Some(self.is_marked(cell.0, cell.1))
        } else {
            None
        }
    }
}

} // verus!
