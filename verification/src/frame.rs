//! The grid frame: how a scene's coordinates map to grid cells and back.
//!
//! One cell is `radius / 4` length units wide (integer division), so four
//! cells span the robot's radius. A coordinate maps to the nearest cell index,
//! ties away from zero, clamped into the grid.

use vstd::prelude::*;
use vstd::arithmetic::div_mod::{
    lemma_div_pos_is_pos, lemma_fundamental_div_mod_converse_div, lemma_remainder_lower,
};
use vstd::arithmetic::mul::lemma_mul_inequality;
use crate::scene::{Boundary, Obstacle, PlanError, Point, Robot};

verus! {

/// The largest number of cells a grid may have.
pub const MAX_CELLS: usize = 4_194_304;

/// The number of cells that one robot radius spans: a cell is this part of
/// the radius wide.
pub const CELLS_PER_RADIUS: i64 = 4;

/// `n / d` rounded to the nearest integer, ties away from zero (for `d > 0`).
pub open spec fn round_div(n: int, d: int) -> int {
    if n >= 0 {
        (2 * n + d) / (2 * d)
    } else {
        -((2 * (-n) + d) / (2 * d))
    }
}

/// `i` moved to the nearest index of `0 .. extent` (for `extent >= 1`).
pub open spec fn clamp_index(i: int, extent: int) -> int {
    if i < 0 {
        0
    } else if i >= extent {
        extent - 1
    } else {
        i
    }
}

/// The index along one axis of the cell nearest to `offset`, a distance from
/// the grid's origin, on an axis of `extent` cells of size `granularity`.
pub open spec fn nearest_cell(offset: int, granularity: int, extent: int) -> int {
    clamp_index(round_div(offset, granularity), extent)
}

/// How many whole cells of size `granularity` fit into `length`.
pub open spec fn grid_extent(length: int, granularity: int) -> int {
    if length <= 0 {
        0
    } else {
        length / granularity
    }
}

/// A rectangle of cells, both corners included. It is empty where a lower
/// index exceeds the upper one.
#[derive(Clone, Copy, Debug, PartialEq, Eq, Structural)]
pub struct CellRect {
    pub x0: usize,
    pub x1: usize,
    pub y0: usize,
    pub y1: usize,
}

impl CellRect {
    /// Whether `cell` lies in the rectangle.
    pub open spec fn covers(self, cell: (usize, usize)) -> bool {
        self.x0 <= cell.0 <= self.x1 && self.y0 <= cell.1 <= self.y1
    }
}

/// Origin, cell size and dimensions of an occupancy grid.
#[derive(Clone, Copy, Debug, PartialEq, Eq, Structural)]
pub struct GridFrame {
    pub origin: Point,
    pub granularity: i64,
    pub width: usize,
    pub height: usize,
}

/// The frame that a boundary and a robot give, or the error that rules it out.
pub open spec fn frame_of(boundary: Boundary, robot: Robot) -> Result<GridFrame, PlanError> {
    let granularity = robot.radius as int / CELLS_PER_RADIUS as int;
    let width = grid_extent(boundary.width as int, granularity);
    let height = grid_extent(boundary.length as int, granularity);
    if robot.radius < CELLS_PER_RADIUS {
        Err(PlanError::GridTooLarge)
    } else if width * height > MAX_CELLS {
        Err(PlanError::GridTooLarge)
    } else if width == 0 || height == 0 {
        Err(PlanError::OutOfBounds)
    } else if boundary.point.x + boundary.width > i64::MAX || boundary.point.y + boundary.length
        > i64::MAX {
        Err(PlanError::OutOfBounds)
    } else {
        Ok(
            (GridFrame {
                origin: boundary.point,
                granularity: granularity as i64,
                width: width as usize,
                height: height as usize,
            }),
        )
    }
}

/// Clamping a rounded negative offset always gives index 0.
proof fn lemma_negative_offset_clamps_to_zero(offset: int, granularity: int, extent: int)
    requires
        offset < 0,
        granularity >= 1,
        extent >= 1,
    ensures
        nearest_cell(offset, granularity, extent) == 0,
{
    lemma_div_pos_is_pos(2 * (-offset) + granularity, 2 * granularity);
}

/// The index nearest to `offset`, clamped into `0 .. extent`.
fn nearest_index(offset: i128, granularity: i64, extent: usize) -> (index: usize)
    requires
        granularity >= 1,
        extent >= 1,
        -0x4_0000_0000_0000_0000 <= offset <= 0x4_0000_0000_0000_0000,
    ensures
        index == nearest_cell(offset as int, granularity as int, extent as int),
        index < extent,
{
    if offset < 0 {
        proof {
            lemma_negative_offset_clamps_to_zero(offset as int, granularity as int, extent as int);
        }
        0
    } else {
        let doubled: i128 = 2 * offset + granularity as i128;
        let divisor: i128 = 2 * (granularity as i128);
        let quotient: i128 = doubled / divisor;
        proof {
            lemma_div_pos_is_pos(doubled as int, divisor as int);
        }
        if quotient >= extent as i128 {
            extent - 1
        } else {
            quotient as usize
        }
    }
}

impl GridFrame {
    /// The frame's invariant: at least one cell, no more than the budget, and
    /// every cell's corner within the coordinate range.
    pub open spec fn wf(self) -> bool {
        &&& self.granularity >= 1
        &&& self.width >= 1
        &&& self.height >= 1
        &&& self.width * self.height <= MAX_CELLS
        &&& self.origin.x + self.width * self.granularity <= i64::MAX
        &&& self.origin.y + self.height * self.granularity <= i64::MAX
    }

    /// Whether `cell` is a cell of the grid.
    pub open spec fn contains(self, cell: (usize, usize)) -> bool {
        cell.0 < self.width && cell.1 < self.height
    }

    /// The grid's dimensions.
    pub open spec fn shape(self) -> (usize, usize) {
        (self.width, self.height)
    }

    /// The cell that the coordinates `(x, y)` discretize to.
    pub open spec fn cell_at(self, x: int, y: int) -> (usize, usize) {
        (
            nearest_cell(x - self.origin.x, self.granularity as int, self.width as int) as usize,
            nearest_cell(y - self.origin.y, self.granularity as int, self.height as int) as usize,
        )
    }

    /// The cell that a point discretizes to.
    pub open spec fn cell_of_point(self, point: Point) -> (usize, usize) {
        self.cell_at(point.x as int, point.y as int)
    }

    /// The point at which a cell lies.
    pub open spec fn point_at(self, cell: (usize, usize)) -> Point {
        Point {
            x: (self.origin.x + cell.0 * self.granularity) as i64,
            y: (self.origin.y + cell.1 * self.granularity) as i64,
        }
    }

    /// The cells that an obstacle blocks for a robot of the given radius: the
    /// obstacle's rectangle, widened by the radius on every side, from the cell
    /// of its lower corner to the cell of its upper corner.
    pub open spec fn footprint_of(self, obstacle: Obstacle, radius: i64) -> CellRect {
        let low = self.cell_at(obstacle.point.x - radius, obstacle.point.y - radius);
        let high = self.cell_at(
            obstacle.point.x + obstacle.width + radius,
            obstacle.point.y + obstacle.length + radius,
        );
        CellRect { x0: low.0, x1: high.0, y0: low.1, y1: high.1 }
    }

    /// Builds the frame for a boundary and a robot.
    ///
    /// The cell size is `radius / 4`, and the grid has as many whole cells as
    /// fit into the boundary along each axis. The errors, in this order:
    /// `GridTooLarge` for a radius under four units, which leaves no cell size,
    /// and for more than [`MAX_CELLS`] cells; `OutOfBounds` for a boundary in
    /// which no cell fits, and for one whose far corner lies beyond the
    /// coordinate range.
    pub fn new(boundary: &Boundary, robot: &Robot) -> (made: Result<GridFrame, PlanError>)
        ensures
            made == frame_of(*boundary, *robot),
            made matches Ok(frame) ==> frame.wf(),
    {
        if robot.radius < CELLS_PER_RADIUS {
            return Err(PlanError::GridTooLarge);
        }
        let granularity: i64 = robot.radius / CELLS_PER_RADIUS;
        let width: i64 = if boundary.width <= 0 {
            0
        } else {
            boundary.width / granularity
        };
        let height: i64 = if boundary.length <= 0 {
            0
        } else {
            boundary.length / granularity
        };
        proof {
            if boundary.width > 0 {
                lemma_div_pos_is_pos(boundary.width as int, granularity as int);
                lemma_remainder_lower(boundary.width as int, granularity as int);
            }
            if boundary.length > 0 {
                lemma_div_pos_is_pos(boundary.length as int, granularity as int);
                lemma_remainder_lower(boundary.length as int, granularity as int);
            }
        }
        if width == 0 || height == 0 {
            assert(width * height == 0) by (nonlinear_arith)
                requires
                    width == 0 || height == 0,
            ;
            return Err(PlanError::OutOfBounds);
        }
        if width > MAX_CELLS as i64 || height > MAX_CELLS as i64 {
            assert(width * height > MAX_CELLS) by (nonlinear_arith)
                requires
                    width >= 1,
                    height >= 1,
                    width > MAX_CELLS || height > MAX_CELLS,
            ;
            return Err(PlanError::GridTooLarge);
        }
        assert(width * height <= 0x100_0000_0000_0000) by (nonlinear_arith)
            requires
                0 <= width <= 4_194_304,
                0 <= height <= 4_194_304,
        ;
        let cells: i64 = width * height;
        if cells > MAX_CELLS as i64 {
            return Err(PlanError::GridTooLarge);
        }
        if boundary.point.x as i128 + boundary.width as i128 > i64::MAX as i128
            || boundary.point.y as i128 + boundary.length as i128 > i64::MAX as i128 {
            return Err(PlanError::OutOfBounds);
        }
        Ok(
            GridFrame {
                origin: boundary.point,
                granularity,
                width: width as usize,
                height: height as usize,
            },
        )
    }

    /// The cell that `point` discretizes to, clamped into the grid.
    pub fn cell_of(&self, point: Point) -> (cell: (usize, usize))
        requires
            self.wf(),
        ensures
            cell == self.cell_of_point(point),
            self.contains(cell),
    {
        let x: usize = nearest_index(
            point.x as i128 - self.origin.x as i128,
            self.granularity,
            self.width,
        );
        let y: usize = nearest_index(
            point.y as i128 - self.origin.y as i128,
            self.granularity,
            self.height,
        );
        (x, y)
    }

    /// The rectangle of cells that `obstacle` blocks for a robot of `radius`.
    pub fn footprint(&self, obstacle: &Obstacle, radius: i64) -> (rect: CellRect)
        requires
            self.wf(),
        ensures
            rect == self.footprint_of(*obstacle, radius),
            rect.x0 < self.width,
            rect.x1 < self.width,
            rect.y0 < self.height,
            rect.y1 < self.height,
    {
        let reach: i128 = radius as i128;
        let left: i128 = obstacle.point.x as i128 - reach - self.origin.x as i128;
        let bottom: i128 = obstacle.point.y as i128 - reach - self.origin.y as i128;
        let right: i128 = obstacle.point.x as i128 + obstacle.width as i128 + reach
            - self.origin.x as i128;
        let top: i128 = obstacle.point.y as i128 + obstacle.length as i128 + reach
            - self.origin.y as i128;
        CellRect {
            x0: nearest_index(left, self.granularity, self.width),
            x1: nearest_index(right, self.granularity, self.width),
            y0: nearest_index(bottom, self.granularity, self.height),
            y1: nearest_index(top, self.granularity, self.height),
        }
    }

    /// The point at which `cell` lies, or `None` for a cell outside the grid.
    pub fn point_of(&self, cell: (usize, usize)) -> (point: Option<Point>)
        requires
            self.wf(),
        ensures
            point == (if self.contains(cell) {
                Some(self.point_at(cell))
            } else {
                None
            }),
    {
        if cell.0 >= self.width || cell.1 >= self.height {
            return None;
        }
        proof {
            lemma_mul_inequality(cell.0 as int, self.width as int, self.granularity as int);
            lemma_mul_inequality(cell.1 as int, self.height as int, self.granularity as int);
            assert(0 <= cell.0 * self.granularity) by (nonlinear_arith)
                requires
                    self.granularity >= 1,
            ;
            assert(0 <= cell.1 * self.granularity) by (nonlinear_arith)
                requires
                    self.granularity >= 1,
            ;
        }
        let dx: i128 = cell.0 as i128 * self.granularity as i128;
        let dy: i128 = cell.1 as i128 * self.granularity as i128;
        let x: i128 = self.origin.x as i128 + dx;
        let y: i128 = self.origin.y as i128 + dy;
        Some(Point { x: x as i64, y: y as i64 })
    }
}

/// The point of a cell discretizes back to that cell.
pub proof fn lemma_cell_round_trip(frame: GridFrame, cell: (usize, usize))
    requires
        frame.wf(),
        frame.contains(cell),
    ensures
        frame.cell_of_point(frame.point_at(cell)) == cell,
{
    let g = frame.granularity as int;
    lemma_mul_inequality(cell.0 as int, frame.width as int, g);
    lemma_mul_inequality(cell.1 as int, frame.height as int, g);
    assert(0 <= cell.0 * g) by (nonlinear_arith)
        requires
            g >= 1,
    ;
    assert(0 <= cell.1 * g) by (nonlinear_arith)
        requires
            g >= 1,
    ;
    lemma_round_of_multiple(cell.0 as int, g);
    lemma_round_of_multiple(cell.1 as int, g);
}

/// The distance between two integers.
pub open spec fn distance(a: int, b: int) -> int {
    if a <= b {
        b - a
    } else {
        a - b
    }
}

/// Whether `offset`, a distance from the origin along an axis of `extent`
/// cells, rounds to a cell of the axis without being clamped.
pub open spec fn rounds_within(offset: int, granularity: int, extent: int) -> bool {
    0 <= offset && 2 * offset + granularity < 2 * granularity * extent
}

/// Along one axis, a distance that rounds to a cell without being clamped
/// lies no more than half a cell from that cell.
pub proof fn lemma_nearest_cell_is_near(offset: int, granularity: int, extent: int)
    requires
        granularity >= 1,
        extent >= 1,
        rounds_within(offset, granularity, extent),
    ensures
        0 <= nearest_cell(offset, granularity, extent) < extent,
        2 * distance(nearest_cell(offset, granularity, extent) * granularity, offset)
            <= granularity,
{
    let index = round_div(offset, granularity);
    lemma_div_pos_is_pos(2 * offset + granularity, 2 * granularity);
    assert(2 * granularity * extent == (2 * granularity) * extent) by (nonlinear_arith);
    vstd::arithmetic::div_mod::lemma_multiply_divide_lt(
        2 * offset + granularity,
        2 * granularity,
        extent,
    );
    assert(0 <= index < extent);
    lemma_round_div_is_nearest(offset, granularity);
}

/// A position that rounds to a cell without being clamped lies no more than
/// half a cell from the point of its cell, along each axis.
pub proof fn lemma_cell_is_near(frame: GridFrame, point: Point)
    requires
        frame.wf(),
        rounds_within(point.x - frame.origin.x, frame.granularity as int, frame.width as int),
        rounds_within(point.y - frame.origin.y, frame.granularity as int, frame.height as int),
    ensures
        frame.contains(frame.cell_of_point(point)),
        2 * distance(frame.point_at(frame.cell_of_point(point)).x as int, point.x as int)
            <= frame.granularity,
        2 * distance(frame.point_at(frame.cell_of_point(point)).y as int, point.y as int)
            <= frame.granularity,
{
    let g = frame.granularity as int;
    let cell = frame.cell_of_point(point);
    lemma_nearest_cell_is_near(point.x - frame.origin.x, g, frame.width as int);
    lemma_nearest_cell_is_near(point.y - frame.origin.y, g, frame.height as int);
    lemma_mul_inequality(cell.0 as int, frame.width as int, g);
    lemma_mul_inequality(cell.1 as int, frame.height as int, g);
    assert(0 <= cell.0 * g) by (nonlinear_arith)
        requires
            g >= 1,
    ;
    assert(0 <= cell.1 * g) by (nonlinear_arith)
        requires
            g >= 1,
    ;
}

/// A whole multiple of the divisor rounds to its factor.
pub proof fn lemma_round_of_multiple(i: int, d: int)
    requires
        i >= 0,
        d >= 1,
    ensures
        round_div(i * d, d) == i,
{
    assert(i * d >= 0) by (nonlinear_arith)
        requires
            i >= 0,
            d >= 1,
    ;
    assert(2 * (i * d) + d == i * (2 * d) + d) by (nonlinear_arith);
    lemma_fundamental_div_mod_converse_div(2 * (i * d) + d, 2 * d, i, d);
}

/// A rounded quotient lies no more than half a divisor from the exact one.
pub proof fn lemma_round_div_is_nearest(n: int, d: int)
    requires
        d >= 1,
    ensures
        2 * (round_div(n, d) * d - n) <= d,
        2 * (n - round_div(n, d) * d) <= d,
{
    let m = if n >= 0 { n } else { -n };
    let q = (2 * m + d) / (2 * d);
    let r = (2 * m + d) % (2 * d);
    vstd::arithmetic::div_mod::lemma_fundamental_div_mod(2 * m + d, 2 * d);
    vstd::arithmetic::div_mod::lemma_mod_pos_bound(2 * m + d, 2 * d);
    assert(2 * m + d == (2 * d) * q + r);
    assert((2 * d) * q == 2 * (q * d)) by (nonlinear_arith);
    if n >= 0 {
        assert(round_div(n, d) == q);
    } else {
        assert(round_div(n, d) == -q);
        assert((-q) * d == -(q * d)) by (nonlinear_arith);
    }
}

} // verus!
