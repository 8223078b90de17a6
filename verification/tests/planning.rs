use path_planner::frame::{CellRect, GridFrame, MAX_CELLS};
use path_planner::planner::{plan, validate, waypoints};
use path_planner::scene::{Boundary, Goal, Obstacle, PlanError, Point, Robot, Scene};

// One length unit is a millimetre: 10 m are 10_000 units.

fn open_scene() -> Scene {
    Scene {
        boundary: Some(Boundary { point: Point { x: -5_000, y: -5_000 }, width: 10_000, length: 10_000 }),
        robot: Some(Robot { point: Point { x: -1_000, y: -1_000 }, radius: 200 }),
        goal: Some(Goal { point: Point { x: 2_000, y: 2_000 } }),
        obstacles: Vec::new(),
    }
}

// A grid of `width` by `height` cells of size 1, with its origin at (0, 0).
fn unit_scene(width: i64, height: i64, robot: (i64, i64), goal: (i64, i64)) -> Scene {
    Scene {
        boundary: Some(Boundary { point: Point { x: 0, y: 0 }, width, length: height }),
        robot: Some(Robot { point: Point { x: robot.0, y: robot.1 }, radius: 4 }),
        goal: Some(Goal { point: Point { x: goal.0, y: goal.1 } }),
        obstacles: Vec::new(),
    }
}

fn at(x: i64, y: i64) -> Point {
    Point { x, y }
}

#[test]
fn path_test() {
    let scene = open_scene();
    let path = plan(&scene);
    assert!(path.is_ok());
    let points = path.unwrap();
    assert!(!points.is_empty());
}

#[test]
fn open_scene_route_runs_diagonally() {
    let points = plan(&open_scene()).unwrap();
    assert_eq!(points.len(), 61);
    assert_eq!(points[0], at(-1_000, -1_000));
    assert_eq!(points[1], at(-950, -950));
    assert_eq!(points[60], at(2_000, 2_000));
    for k in 1..points.len() {
        let dx = (points[k].x - points[k - 1].x).abs();
        let dy = (points[k].y - points[k - 1].y).abs();
        assert!(dx <= 50 && dy <= 50 && dx + dy > 0);
    }
}

#[test]
fn open_scene_ends_within_one_cell_of_the_goal() {
    let points = plan(&open_scene()).unwrap();
    let last = points[points.len() - 1];
    assert!((last.x - 2_000).abs() <= 50);
    assert!((last.y - 2_000).abs() <= 50);
}

#[test]
fn first_and_last_points_discretize_to_robot_and_goal() {
    let mut scene = open_scene();
    scene.robot = Some(Robot { point: at(-1_020, -980), radius: 200 });
    scene.goal = Some(Goal { point: at(1_990, 2_030) });
    let frame = GridFrame::new(&scene.boundary.unwrap(), &scene.robot.unwrap()).unwrap();
    let points = plan(&scene).unwrap();
    assert_eq!(frame.cell_of(points[0]), frame.cell_of(at(-1_020, -980)));
    assert_eq!(frame.cell_of(points[points.len() - 1]), frame.cell_of(at(1_990, 2_030)));
    assert_eq!(points[0], at(-1_000, -1_000));
    assert_eq!(points[points.len() - 1], at(2_000, 2_050));
}

#[test]
fn goal_in_the_robots_cell_gives_one_point() {
    let mut scene = open_scene();
    scene.goal = Some(Goal { point: at(-990, -1_010) });
    assert_eq!(plan(&scene), Ok(vec![at(-1_000, -1_000)]));
}

#[test]
fn goal_in_the_robots_cell_gives_one_point_even_when_blocked() {
    let mut scene = open_scene();
    scene.goal = Some(Goal { point: at(-1_000, -1_000) });
    scene.obstacles.push(Obstacle { point: at(-1_500, -1_500), width: 1_000, length: 1_000 });
    assert_eq!(plan(&scene), Ok(vec![at(-1_000, -1_000)]));
}

#[test]
fn missing_parts_are_an_incomplete_scene() {
    let mut scene = open_scene();
    scene.robot = None;
    assert_eq!(plan(&scene), Err(PlanError::IncompleteScene));
    let mut scene = open_scene();
    scene.goal = None;
    assert_eq!(plan(&scene), Err(PlanError::IncompleteScene));
    let mut scene = open_scene();
    scene.boundary = None;
    assert_eq!(plan(&scene), Err(PlanError::IncompleteScene));
    assert_eq!(plan(&Scene::new()), Err(PlanError::IncompleteScene));
    assert_eq!(validate(&Scene::new()), Err(PlanError::IncompleteScene));
}

#[test]
fn incomplete_scene_comes_before_any_grid_error() {
    let mut scene = open_scene();
    scene.robot = Some(Robot { point: at(0, 0), radius: 0 });
    scene.goal = None;
    assert_eq!(plan(&scene), Err(PlanError::IncompleteScene));
}

#[test]
fn validate_hands_out_the_parts() {
    let scene = open_scene();
    assert_eq!(
        validate(&scene),
        Ok((scene.boundary.unwrap(), scene.robot.unwrap(), scene.goal.unwrap()))
    );
}

#[test]
fn enclosing_obstacle_leaves_no_path() {
    let mut scene = open_scene();
    scene.obstacles.push(Obstacle { point: at(-1_000, -1_000), width: 4_000, length: 4_000 });
    assert_eq!(plan(&scene), Err(PlanError::NoPath));
}

#[test]
fn blocked_goal_leaves_no_path() {
    let mut scene = open_scene();
    scene.obstacles.push(Obstacle { point: at(1_900, 1_900), width: 200, length: 200 });
    assert_eq!(plan(&scene), Err(PlanError::NoPath));
}

#[test]
fn hemmed_in_robot_leaves_no_path() {
    let mut scene = open_scene();
    scene.obstacles.push(Obstacle { point: at(-1_100, -1_100), width: 200, length: 200 });
    assert_eq!(plan(&scene), Err(PlanError::NoPath));
}

#[test]
fn robot_on_the_edge_of_a_footprint_steps_out() {
    // The footprint covers the columns 0 and 1; the robot stands in column 1.
    let mut scene = unit_scene(5, 3, (1, 1), (4, 1));
    scene.obstacles.push(Obstacle { point: at(4, 0), width: -7, length: 2 });
    assert_eq!(plan(&scene), Ok(vec![at(1, 1), at(2, 0), at(3, 0), at(4, 1)]));
    scene.obstacles.push(Obstacle { point: at(-100, -100), width: 97, length: 200 });
    assert_eq!(plan(&scene), Ok(vec![at(1, 1), at(2, 0), at(3, 0), at(4, 1)]));
}

#[test]
fn wall_across_the_grid_leaves_no_path() {
    let mut scene = open_scene();
    scene.obstacles.push(Obstacle { point: at(0, -6_000), width: 100, length: 12_000 });
    assert_eq!(plan(&scene), Err(PlanError::NoPath));
}

#[test]
fn planning_twice_gives_the_same_route() {
    let mut scene = open_scene();
    scene.obstacles.push(Obstacle { point: at(0, -500), width: 300, length: 1_200 });
    let first = plan(&scene);
    let second = plan(&scene);
    assert!(first.is_ok());
    assert_eq!(first, second);
    let copy = scene.clone();
    assert_eq!(plan(&copy), first);
}

#[test]
fn grid_sizing() {
    let boundary = Boundary { point: at(0, 0), width: 10_000, length: 10_000 };
    let robot = Robot { point: at(-1_000, -1_000), radius: 200 };
    let frame = GridFrame::new(&boundary, &robot).unwrap();
    assert_eq!(frame.granularity, 50);
    assert_eq!(frame.width, 200);
    assert_eq!(frame.height, 200);
    assert_eq!(frame.origin, at(0, 0));
}

#[test]
fn grid_sizing_rounds_down() {
    let boundary = Boundary { point: at(7, -3), width: 1_049, length: 99 };
    let robot = Robot { point: at(0, 0), radius: 203 };
    let frame = GridFrame::new(&boundary, &robot).unwrap();
    assert_eq!(frame.granularity, 50);
    assert_eq!(frame.width, 20);
    assert_eq!(frame.height, 1);
}

#[test]
fn radius_without_a_cell_size_is_too_large_a_grid() {
    let boundary = Boundary { point: at(0, 0), width: 10, length: 10 };
    for radius in [3i64, 0, -1, i64::MIN] {
        let robot = Robot { point: at(0, 0), radius };
        assert_eq!(GridFrame::new(&boundary, &robot), Err(PlanError::GridTooLarge));
    }
    let mut scene = unit_scene(10, 10, (0, 0), (5, 5));
    scene.robot = Some(Robot { point: at(0, 0), radius: 3 });
    assert_eq!(plan(&scene), Err(PlanError::GridTooLarge));
}

#[test]
fn cell_budget_is_enforced() {
    assert_eq!(MAX_CELLS, 4_194_304);
    let robot = Robot { point: at(0, 0), radius: 4 };
    let full = Boundary { point: at(0, 0), width: 2_048, length: 2_048 };
    assert!(GridFrame::new(&full, &robot).is_ok());
    let over = Boundary { point: at(0, 0), width: 2_049, length: 2_048 };
    assert_eq!(GridFrame::new(&over, &robot), Err(PlanError::GridTooLarge));
    let huge = Boundary { point: at(0, 0), width: i64::MAX, length: i64::MAX };
    assert_eq!(GridFrame::new(&huge, &robot), Err(PlanError::GridTooLarge));
    let scene = unit_scene(i64::MAX, 2, (0, 0), (1, 1));
    assert_eq!(plan(&scene), Err(PlanError::GridTooLarge));
}

#[test]
fn boundary_without_a_cell_is_out_of_bounds() {
    let robot = Robot { point: at(0, 0), radius: 200 };
    let flat = Boundary { point: at(0, 0), width: 10_000, length: 0 };
    assert_eq!(GridFrame::new(&flat, &robot), Err(PlanError::OutOfBounds));
    let negative = Boundary { point: at(0, 0), width: -10_000, length: 10_000 };
    assert_eq!(GridFrame::new(&negative, &robot), Err(PlanError::OutOfBounds));
    let narrow = Boundary { point: at(0, 0), width: 49, length: 10_000 };
    assert_eq!(GridFrame::new(&narrow, &robot), Err(PlanError::OutOfBounds));
    let unbounded = Boundary { point: at(0, 0), width: 0, length: i64::MAX };
    assert_eq!(GridFrame::new(&unbounded, &robot), Err(PlanError::OutOfBounds));
    let scene = unit_scene(0, 5, (0, 0), (0, 0));
    assert_eq!(plan(&scene), Err(PlanError::OutOfBounds));
}

#[test]
fn boundary_beyond_the_coordinate_range_is_out_of_bounds() {
    let robot = Robot { point: at(0, 0), radius: 200 };
    let boundary = Boundary { point: at(i64::MAX - 100, 0), width: 1_000, length: 1_000 };
    assert_eq!(GridFrame::new(&boundary, &robot), Err(PlanError::OutOfBounds));
    let fits = Boundary { point: at(i64::MAX - 1_000, i64::MIN), width: 1_000, length: 1_000 };
    assert!(GridFrame::new(&fits, &robot).is_ok());
}

#[test]
fn positions_outside_the_boundary_are_clamped() {
    let scene = unit_scene(4, 3, (-50, 100), (1_000, -7));
    assert_eq!(plan(&scene), Ok(vec![at(0, 2), at(1, 1), at(2, 0), at(3, 0)]));
    let far = unit_scene(2, 2, (i64::MIN, i64::MIN), (i64::MAX, i64::MAX));
    assert_eq!(plan(&far), Ok(vec![at(0, 0), at(1, 1)]));
}

#[test]
fn expansion_order_picks_among_equal_routes() {
    let scene = unit_scene(3, 3, (0, 0), (2, 1));
    assert_eq!(plan(&scene), Ok(vec![at(0, 0), at(1, 0), at(2, 1)]));
    let scene = unit_scene(3, 3, (0, 0), (2, 0));
    assert_eq!(plan(&scene), Ok(vec![at(0, 0), at(1, 0), at(2, 0)]));
    let scene = unit_scene(3, 3, (2, 2), (0, 1));
    assert_eq!(plan(&scene), Ok(vec![at(2, 2), at(1, 1), at(0, 1)]));
    let scene = unit_scene(3, 3, (1, 0), (1, 2));
    assert_eq!(plan(&scene), Ok(vec![at(1, 0), at(0, 1), at(1, 2)]));
}

#[test]
fn route_goes_round_an_obstacle() {
    // Radius 4 widens the obstacle by four cells on every side: it blocks the
    // columns 6 to 15 below row 15, and the route has to pass over it.
    let mut scene = unit_scene(30, 30, (2, 2), (20, 2));
    scene.obstacles.push(Obstacle { point: at(10, 0), width: 1, length: 10 });
    let points = plan(&scene).unwrap();
    assert_eq!(points[0], at(2, 2));
    assert_eq!(points[points.len() - 1], at(20, 2));
    assert_eq!(points.len(), 36);
    for point in points.iter() {
        let inside = 6 <= point.x && point.x <= 15 && point.y <= 14;
        assert!(!inside);
    }
    for k in 1..points.len() {
        let dx = (points[k].x - points[k - 1].x).abs();
        let dy = (points[k].y - points[k - 1].y).abs();
        assert!(dx <= 1 && dy <= 1 && dx + dy > 0);
    }
}

#[test]
fn waypoints_follow_the_cells() {
    let boundary = Boundary { point: at(-5_000, 100), width: 10_000, length: 10_000 };
    let robot = Robot { point: at(0, 0), radius: 200 };
    let frame = GridFrame::new(&boundary, &robot).unwrap();
    assert_eq!(waypoints(&frame, None), Err(PlanError::NoPath));
    assert_eq!(waypoints(&frame, Some(Vec::new())), Ok(Vec::new()));
    assert_eq!(
        waypoints(&frame, Some(vec![(0, 0), (3, 4), (199, 199)])),
        Ok(vec![at(-5_000, 100), at(-4_850, 300), at(4_950, 10_050)])
    );
    assert_eq!(waypoints(&frame, Some(vec![(0, 0), (200, 0)])), Err(PlanError::OutOfBounds));
    assert_eq!(waypoints(&frame, Some(vec![(0, 200)])), Err(PlanError::OutOfBounds));
}

#[test]
fn cells_round_to_the_nearest_index() {
    let boundary = Boundary { point: at(1_000, -1_000), width: 10_000, length: 10_000 };
    let robot = Robot { point: at(0, 0), radius: 200 };
    let frame = GridFrame::new(&boundary, &robot).unwrap();
    assert_eq!(frame.cell_of(at(1_000, -1_000)), (0, 0));
    assert_eq!(frame.cell_of(at(1_024, -976)), (0, 0));
    assert_eq!(frame.cell_of(at(1_025, -975)), (1, 1));
    assert_eq!(frame.cell_of(at(1_074, -926)), (1, 1));
    assert_eq!(frame.cell_of(at(1_075, -925)), (2, 2));
    assert_eq!(frame.cell_of(at(975, -1_026)), (0, 0));
    assert_eq!(frame.cell_of(at(-9_000, -90_000)), (0, 0));
    assert_eq!(frame.cell_of(at(10_949, 8_949)), (199, 199));
    assert_eq!(frame.cell_of(at(11_000, 9_000)), (199, 199));
    assert_eq!(frame.cell_of(at(i64::MAX, i64::MIN)), (199, 0));
}

#[test]
fn points_of_cells() {
    let boundary = Boundary { point: at(1_000, -1_000), width: 10_000, length: 5_000 };
    let robot = Robot { point: at(0, 0), radius: 200 };
    let frame = GridFrame::new(&boundary, &robot).unwrap();
    assert_eq!(frame.point_of((0, 0)), Some(at(1_000, -1_000)));
    assert_eq!(frame.point_of((3, 4)), Some(at(1_150, -800)));
    assert_eq!(frame.point_of((199, 99)), Some(at(10_950, 3_950)));
    assert_eq!(frame.point_of((200, 0)), None);
    assert_eq!(frame.point_of((0, 100)), None);
    assert_eq!(frame.cell_of(frame.point_of((17, 42)).unwrap()), (17, 42));
}

#[test]
fn footprints_are_widened_by_the_radius() {
    let boundary = Boundary { point: at(-5_000, -5_000), width: 10_000, length: 10_000 };
    let robot = Robot { point: at(0, 0), radius: 200 };
    let frame = GridFrame::new(&boundary, &robot).unwrap();
    let obstacle = Obstacle { point: at(0, 1_000), width: 100, length: 300 };
    assert_eq!(frame.footprint(&obstacle, 200), CellRect { x0: 96, x1: 106, y0: 116, y1: 130 });
    assert_eq!(frame.footprint(&obstacle, 0), CellRect { x0: 100, x1: 102, y0: 120, y1: 126 });
    let outside = Obstacle { point: at(-9_000, 4_900), width: 100, length: 5_000 };
    assert_eq!(frame.footprint(&outside, 200), CellRect { x0: 0, x1: 0, y0: 194, y1: 199 });
    let extreme = Obstacle { point: at(i64::MIN, i64::MAX), width: i64::MAX, length: i64::MAX };
    assert_eq!(frame.footprint(&extreme, i64::MAX), CellRect { x0: 0, x1: 199, y0: 100, y1: 199 });
}

#[test]
fn errors_describe_themselves() {
    assert_eq!(PlanError::IncompleteScene.describe(), "incomplete scene");
    assert_eq!(PlanError::OutOfBounds.describe(), "out of bounds");
    assert_eq!(PlanError::GridTooLarge.describe(), "grid too large");
    assert_eq!(PlanError::NoPath.describe(), "no path");
}

#[test]
fn large_grid_is_searched_from_corner_to_corner() {
    let scene = unit_scene(600, 400, (0, 0), (599, 399));
    let points = plan(&scene).unwrap();
    assert_eq!(points.len(), 600);
    assert_eq!(points[0], at(0, 0));
    assert_eq!(points[599], at(599, 399));
}

#[test]
fn route_squeezes_through_a_gap() {
    // Two walls leave the rows 10 and 11 of column 10 free.
    let mut scene = unit_scene(21, 21, (0, 0), (20, 0));
    scene.robot = Some(Robot { point: at(0, 0), radius: 4 });
    scene.obstacles.push(Obstacle { point: at(14, -10), width: -8, length: 15 });
    scene.obstacles.push(Obstacle { point: at(14, 16), width: -8, length: 10 });
    let frame = GridFrame::new(&scene.boundary.unwrap(), &scene.robot.unwrap()).unwrap();
    assert_eq!(frame.footprint(&scene.obstacles[0], 4), CellRect { x0: 10, x1: 10, y0: 0, y1: 9 });
    assert_eq!(frame.footprint(&scene.obstacles[1], 4), CellRect { x0: 10, x1: 10, y0: 12, y1: 20 });
    let points = plan(&scene).unwrap();
    assert_eq!(points.len(), 21);
    assert_eq!(points[10], at(10, 10));
    scene.obstacles.push(Obstacle { point: at(14, 14), width: -8, length: -7 });
    assert_eq!(frame.footprint(&scene.obstacles[2], 4), CellRect { x0: 10, x1: 10, y0: 10, y1: 11 });
    assert_eq!(plan(&scene), Err(PlanError::NoPath));
}
