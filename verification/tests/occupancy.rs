use path_planner::frame::{CellRect, GridFrame};
use path_planner::grid::Grid;
use path_planner::scene::{Boundary, Obstacle, Point, Robot};
use path_planner::search::{checked_coord_add, open_neighbours, same_cell};

// A frame of `width` by `height` cells of size 1 with its origin at (0, 0).
fn unit_frame(width: i64, height: i64) -> GridFrame {
    let boundary = Boundary { point: Point { x: 0, y: 0 }, width, length: height };
    let robot = Robot { point: Point { x: 0, y: 0 }, radius: 4 };
    GridFrame::new(&boundary, &robot).unwrap()
}

fn blocked_count(grid: &Grid) -> usize {
    let (width, height) = grid.shape();
    let mut count: usize = 0;
    for x in 0..width {
        for y in 0..height {
            if grid.blocked_at((x, y)) == Some(true) {
                count += 1;
            }
        }
    }
    count
}

#[test]
fn empty_grid_has_no_blocked_cell() {
    let grid = Grid::build(&unit_frame(7, 5), &Vec::new(), 4);
    assert_eq!(grid.shape(), (7, 5));
    assert_eq!(blocked_count(&grid), 0);
    assert_eq!(grid.blocked_at((6, 4)), Some(false));
    assert_eq!(grid.blocked_at((7, 4)), None);
    assert_eq!(grid.blocked_at((6, 5)), None);
    assert_eq!(grid.blocked_at((usize::MAX, usize::MAX)), None);
}

#[test]
fn stamp_blocks_a_rectangle() {
    let mut grid = Grid::build(&unit_frame(7, 5), &Vec::new(), 4);
    grid.stamp(CellRect { x0: 2, x1: 4, y0: 1, y1: 2 });
    assert_eq!(blocked_count(&grid), 6);
    for x in 2..=4usize {
        for y in 1..=2usize {
            assert_eq!(grid.blocked_at((x, y)), Some(true));
        }
    }
    assert_eq!(grid.blocked_at((1, 1)), Some(false));
    assert_eq!(grid.blocked_at((5, 2)), Some(false));
    assert_eq!(grid.blocked_at((2, 0)), Some(false));
    assert_eq!(grid.blocked_at((4, 3)), Some(false));
    grid.stamp(CellRect { x0: 4, x1: 6, y0: 2, y1: 4 });
    assert_eq!(blocked_count(&grid), 14);
    grid.stamp(CellRect { x0: 3, x1: 2, y0: 0, y1: 4 });
    grid.stamp(CellRect { x0: 0, x1: 6, y0: 4, y1: 3 });
    assert_eq!(blocked_count(&grid), 14);
}

#[test]
fn build_stamps_every_footprint() {
    let frame = unit_frame(40, 30);
    let obstacles = vec![
        Obstacle { point: Point { x: 10, y: 10 }, width: 2, length: 1 },
        Obstacle { point: Point { x: 30, y: 20 }, width: 0, length: 0 },
    ];
    let grid = Grid::build(&frame, &obstacles, 4);
    // The first covers 6..=16 by 6..=15, the second 26..=34 by 16..=24.
    assert_eq!(blocked_count(&grid), 11 * 10 + 9 * 9);
    assert_eq!(grid.blocked_at((6, 6)), Some(true));
    assert_eq!(grid.blocked_at((16, 15)), Some(true));
    assert_eq!(grid.blocked_at((17, 15)), Some(false));
    assert_eq!(grid.blocked_at((5, 6)), Some(false));
    assert_eq!(grid.blocked_at((26, 16)), Some(true));
    assert_eq!(grid.blocked_at((34, 24)), Some(true));
    assert_eq!(grid.blocked_at((35, 24)), Some(false));
    let bare = Grid::build(&frame, &obstacles, 0);
    assert_eq!(blocked_count(&bare), 3 * 2 + 1);
}

#[test]
fn footprints_are_clamped_into_the_grid() {
    let frame = unit_frame(10, 10);
    let obstacles = vec![Obstacle { point: Point { x: 8, y: -20 }, width: 50, length: 22 }];
    let grid = Grid::build(&frame, &obstacles, 1);
    // Columns 7..=9 and rows 0..=3.
    assert_eq!(blocked_count(&grid), 12);
    assert_eq!(grid.blocked_at((7, 3)), Some(true));
    assert_eq!(grid.blocked_at((9, 0)), Some(true));
    assert_eq!(grid.blocked_at((6, 0)), Some(false));
    assert_eq!(grid.blocked_at((9, 4)), Some(false));
}

#[test]
fn neighbours_come_in_offset_order() {
    let grid = Grid::build(&unit_frame(5, 5), &Vec::new(), 4);
    assert_eq!(
        open_neighbours(&grid, (2, 2)),
        vec![(1, 1), (1, 2), (1, 3), (2, 1), (2, 3), (3, 1), (3, 2), (3, 3)]
    );
    assert_eq!(open_neighbours(&grid, (0, 0)), vec![(0, 1), (1, 0), (1, 1)]);
    assert_eq!(open_neighbours(&grid, (4, 4)), vec![(3, 3), (3, 4), (4, 3)]);
    assert_eq!(open_neighbours(&grid, (4, 2)), vec![(3, 1), (3, 2), (3, 3), (4, 1), (4, 3)]);
    assert_eq!(open_neighbours(&grid, (5, 5)), vec![(4, 4)]);
    assert_eq!(open_neighbours(&grid, (7, 7)), Vec::new());
    assert_eq!(open_neighbours(&grid, (usize::MAX, 0)), Vec::new());
}

#[test]
fn neighbours_leave_out_blocked_cells() {
    let mut grid = Grid::build(&unit_frame(5, 5), &Vec::new(), 4);
    grid.stamp(CellRect { x0: 1, x1: 1, y0: 0, y1: 4 });
    grid.stamp(CellRect { x0: 3, x1: 3, y0: 3, y1: 3 });
    assert_eq!(open_neighbours(&grid, (2, 2)), vec![(2, 1), (2, 3), (3, 1), (3, 2)]);
    assert_eq!(open_neighbours(&grid, (1, 2)), vec![(0, 1), (0, 2), (0, 3), (2, 1), (2, 2), (2, 3)]);
    assert_eq!(open_neighbours(&grid, (0, 0)), vec![(0, 1)]);
}

#[test]
fn coordinates_are_added_within_the_shape() {
    assert_eq!(checked_coord_add((2, 3), (1, -1), (5, 5)), Some((3, 2)));
    assert_eq!(checked_coord_add((0, 3), (-1, 0), (5, 5)), None);
    assert_eq!(checked_coord_add((3, 0), (0, -1), (5, 5)), None);
    assert_eq!(checked_coord_add((4, 4), (1, 0), (5, 5)), None);
    assert_eq!(checked_coord_add((4, 4), (0, 1), (5, 5)), None);
    assert_eq!(checked_coord_add((4, 4), (0, 0), (5, 5)), Some((4, 4)));
    assert_eq!(checked_coord_add((5, 2), (-1, 1), (5, 5)), Some((4, 3)));
    assert_eq!(checked_coord_add((usize::MAX, 0), (1, 0), (usize::MAX, 1)), None);
    assert_eq!(
        checked_coord_add((usize::MAX, 0), (-1, 0), (usize::MAX, 1)),
        Some((usize::MAX - 1, 0))
    );
    assert_eq!(checked_coord_add((0, 0), (isize::MIN, isize::MAX), (5, 5)), None);
    assert_eq!(checked_coord_add((10, 1), (-7, 2), (5, 5)), Some((3, 3)));
}

#[test]
fn cells_are_compared_by_both_indices() {
    assert!(same_cell((3, 4), (3, 4)));
    assert!(!same_cell((3, 4), (4, 3)));
    assert!(!same_cell((3, 4), (3, 5)));
    assert!(!same_cell((2, 4), (3, 4)));
}

#[test]
fn stamp_keeps_to_the_grid() {
    let mut grid = Grid::build(&unit_frame(4, 3), &Vec::new(), 4);
    grid.stamp(CellRect { x0: 2, x1: 9, y0: 1, y1: usize::MAX });
    assert_eq!(blocked_count(&grid), 4);
    assert_eq!(grid.blocked_at((2, 1)), Some(true));
    assert_eq!(grid.blocked_at((3, 2)), Some(true));
    assert_eq!(grid.blocked_at((1, 1)), Some(false));
    assert_eq!(grid.blocked_at((2, 0)), Some(false));
    grid.stamp(CellRect { x0: 4, x1: 9, y0: 0, y1: 2 });
    grid.stamp(CellRect { x0: 0, x1: 3, y0: 3, y1: 3 });
    assert_eq!(blocked_count(&grid), 4);
    assert_eq!(grid.shape(), (4, 3));
}
