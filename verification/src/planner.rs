//! Planning: from a scene to the waypoints of a route.

use vstd::prelude::*;
use crate::frame::{frame_of, lemma_cell_round_trip, GridFrame};
use crate::grid::{blocked_cells, in_shape, Grid};
use crate::scene::{Boundary, Goal, PlanError, Point, Robot, Scene};
use crate::search::{adjacent, bfs_path, breadth_first, is_route, route_view, shortest_or_none, step};

verus! {

/// The points at which the cells of a route lie.
pub open spec fn points_of(frame: GridFrame, cells: Seq<(usize, usize)>) -> Seq<Point> {
    cells.map_values(|cell: (usize, usize)| frame.point_at(cell))
}

/// Whether every cell of `cells` is a cell of the grid.
pub open spec fn all_within(frame: GridFrame, cells: Seq<(usize, usize)>) -> bool {
    forall|k: int| 0 <= k < cells.len() ==> frame.contains(#[trigger] cells[k])
}

/// What a search result becomes: no route is `NoPath`, a route gives its
/// points, and a cell outside the grid is refused.
pub open spec fn waypoints_of(frame: GridFrame, found: Option<Seq<(usize, usize)>>) -> Result<
    Seq<Point>,
    PlanError,
> {
    match found {
        None => Err(PlanError::NoPath),
        Some(cells) => if all_within(frame, cells) {
            Ok(points_of(frame, cells))
        } else {
            Err(PlanError::OutOfBounds)
        },
    }
}

/// A planning result with its points as a sequence.
pub open spec fn plan_view(result: Result<Vec<Point>, PlanError>) -> Result<Seq<Point>, PlanError> {
    match result {
        Ok(points) => Ok(points@),
        Err(error) => Err(error),
    }
}

/// The frame of a scene, or the error that stops planning before the search.
pub open spec fn scene_frame(scene: Scene) -> Result<GridFrame, PlanError> {
    if scene.is_complete() {
        frame_of(scene.boundary->Some_0, scene.robot->Some_0)
    } else {
        Err(PlanError::IncompleteScene)
    }
}

/// The cell in which the search starts: that of the robot.
pub open spec fn robot_cell(scene: Scene, frame: GridFrame) -> (usize, usize) {
    frame.cell_of_point(scene.robot->Some_0.point)
}

/// The cell at which the search ends: that of the goal.
pub open spec fn goal_cell(scene: Scene, frame: GridFrame) -> (usize, usize) {
    frame.cell_of_point(scene.goal->Some_0.point)
}

/// The cells of the scene's grid that its obstacles block.
pub open spec fn scene_blocked(scene: Scene, frame: GridFrame) -> Set<(usize, usize)> {
    blocked_cells(frame, scene.obstacles@, scene.robot->Some_0.radius)
}

/// Whether every grid cell that touches `cell` is blocked.
pub open spec fn hemmed_in(frame: GridFrame, blocked: Set<(usize, usize)>, cell: (usize, usize)) -> bool {
    forall|to: (usize, usize)|
        frame.contains(to) && #[trigger] adjacent(cell, to) ==> blocked.contains(to)
}

/// What `plan` returns for a scene.
pub open spec fn plan_outcome(scene: Scene) -> Result<Seq<Point>, PlanError> {
    match scene_frame(scene) {
        Err(error) => Err(error),
        Ok(frame) => waypoints_of(
            frame,
            bfs_path(
                frame.shape(),
                scene_blocked(scene, frame),
                robot_cell(scene, frame),
                goal_cell(scene, frame),
            ),
        ),
    }
}

/// Whether `points` are the points of a shortest route of the scene.
pub open spec fn is_shortest_plan(scene: Scene, frame: GridFrame, points: Seq<Point>) -> bool {
    exists|cells: Seq<(usize, usize)>|
        #![trigger points_of(frame, cells)]
        shortest_or_none(
            frame.shape(),
            scene_blocked(scene, frame),
            robot_cell(scene, frame),
            goal_cell(scene, frame),
            Some(cells),
        ) && points == points_of(frame, cells)
}

/// Whether the scene has no route from the robot's cell to the goal's cell.
pub open spec fn has_no_route(scene: Scene, frame: GridFrame) -> bool {
    forall|cells: Seq<(usize, usize)>|
        !#[trigger] is_route(
            frame.shape(),
            scene_blocked(scene, frame),
            robot_cell(scene, frame),
            goal_cell(scene, frame),
            cells,
        )
}

/// Planning is repeatable: whatever `plan` returns for a scene, it returns
/// the same for that scene again.
pub proof fn lemma_plan_is_repeatable(
    scene: Scene,
    first: Result<Vec<Point>, PlanError>,
    second: Result<Vec<Point>, PlanError>,
)
    requires
        plan_view(first) == plan_outcome(scene),
        plan_view(second) == plan_outcome(scene),
    ensures
        plan_view(first) == plan_view(second),
        first is Ok <==> second is Ok,
        first matches Ok(a) ==> second matches Ok(b) && a@ == b@,
        first matches Err(error) ==> second == Err::<Vec<Point>, PlanError>(error),
{
}

/// Every cell of a route that starts within the grid lies within the grid.
pub proof fn lemma_route_stays_within(
    shape: (usize, usize),
    blocked: Set<(usize, usize)>,
    start: (usize, usize),
    goal: (usize, usize),
    route: Seq<(usize, usize)>,
)
    requires
        is_route(shape, blocked, start, goal, route),
        in_shape(shape, start),
    ensures
        forall|k: int| 0 <= k < route.len() ==> in_shape(shape, #[trigger] route[k]),
{
    assert forall|k: int| 0 <= k < route.len() implies in_shape(shape, #[trigger] route[k]) by {
        if k > 0 {
            assert(step(shape, blocked, route[k - 1], route[k - 1 + 1]));
        }
    }
}

/// Where start and goal are the same cell, the search finds that cell alone.
pub proof fn lemma_same_cell_is_found(
    shape: (usize, usize),
    blocked: Set<(usize, usize)>,
    cell: (usize, usize),
    found: Option<Seq<(usize, usize)>>,
)
    requires
        shortest_or_none(shape, blocked, cell, cell, found),
    ensures
        found == Some(seq![cell]),
{
    let alone = seq![cell];
    assert(is_route(shape, blocked, cell, cell, alone));
    assert(found is Some);
    assert(found->Some_0 =~= alone);
}

/// The search finds nothing where the goal is another cell and is blocked.
pub proof fn lemma_blocked_goal_is_not_found(
    shape: (usize, usize),
    blocked: Set<(usize, usize)>,
    start: (usize, usize),
    goal: (usize, usize),
    found: Option<Seq<(usize, usize)>>,
)
    requires
        shortest_or_none(shape, blocked, start, goal, found),
        start != goal,
        blocked.contains(goal),
    ensures
        found is None,
{
    if found is Some {
        let route = found->Some_0;
        let k = route.len() - 2;
        assert(step(shape, blocked, route[k], route[k + 1]));
    }
}

/// The search finds nothing where the goal is another cell and every grid
/// cell that touches the start is blocked.
pub proof fn lemma_hemmed_in_start_is_not_found(
    frame: GridFrame,
    blocked: Set<(usize, usize)>,
    start: (usize, usize),
    goal: (usize, usize),
    found: Option<Seq<(usize, usize)>>,
)
    requires
        shortest_or_none(frame.shape(), blocked, start, goal, found),
        start != goal,
        hemmed_in(frame, blocked, start),
    ensures
        found is None,
{
    if found is Some {
        let route = found->Some_0;
        assert(step(frame.shape(), blocked, route[0], route[1]));
        assert(adjacent(start, route[1]));
    }
}

/// The cell next to `from` on the way to `to`, along one axis.
pub open spec fn toward(from: usize, to: usize) -> usize {
    if from < to {
        (from + 1) as usize
    } else if from > to {
        (from - 1) as usize
    } else {
        from
    }
}

/// The distance between two indices.
pub open spec fn gap(a: usize, b: usize) -> int {
    if a < b {
        b - a
    } else {
        a - b
    }
}

/// A route from `from` to `to` that first moves diagonally and then straight.
pub open spec fn direct_route(from: (usize, usize), to: (usize, usize)) -> Seq<(usize, usize)>
    decreases gap(from.0, to.0) + gap(from.1, to.1),
{
    if from == to {
        seq![from]
    } else {
        seq![from] + direct_route((toward(from.0, to.0), toward(from.1, to.1)), to)
    }
}

/// On a grid without blocked cells the direct route is a route.
pub proof fn lemma_direct_route(shape: (usize, usize), from: (usize, usize), to: (usize, usize))
    requires
        in_shape(shape, from),
        in_shape(shape, to),
    ensures
        is_route(shape, Set::empty(), from, to, direct_route(from, to)),
    decreases gap(from.0, to.0) + gap(from.1, to.1),
{
    if from != to {
        let next = (toward(from.0, to.0), toward(from.1, to.1));
        lemma_direct_route(shape, next, to);
        let rest = direct_route(next, to);
        let route = direct_route(from, to);
        assert(route == seq![from] + rest);
        assert(route[0] == from);
        assert(route[route.len() - 1] == rest[rest.len() - 1]);
        assert forall|k: int| 0 <= k < route.len() - 1 implies step(
            shape,
            Set::empty(),
            #[trigger] route[k],
            route[k + 1],
        ) by {
            if k == 0 {
                assert(route[1] == rest[0]);
            } else {
                assert(route[k] == rest[k - 1]);
                assert(route[k + 1] == rest[k - 1 + 1]);
                assert(step(shape, Set::empty(), rest[k - 1], rest[k - 1 + 1]));
            }
        }
    }
}

/// The three parts of a scene that planning cannot do without.
pub fn validate(scene: &Scene) -> (parts: Result<(Boundary, Robot, Goal), PlanError>)
    ensures
        scene.is_complete() ==> parts == Ok::<(Boundary, Robot, Goal), PlanError>(
            (scene.boundary->Some_0, scene.robot->Some_0, scene.goal->Some_0),
        ),
        !scene.is_complete() ==> parts == Err::<(Boundary, Robot, Goal), PlanError>(
            PlanError::IncompleteScene,
        ),
{
    match (scene.boundary, scene.robot, scene.goal) {
        (Some(boundary), Some(robot), Some(goal)) => Ok((boundary, robot, goal)),
        _ => Err(PlanError::IncompleteScene),
    }
}

/// Turns a search result into the result of planning: the points of the
/// route's cells, in order, or `NoPath` where the search found nothing. A
/// route with a cell outside the grid is refused as `OutOfBounds`.
pub fn waypoints(frame: &GridFrame, found: Option<Vec<(usize, usize)>>) -> (result: Result<
    Vec<Point>,
    PlanError,
>)
    requires
        frame.wf(),
    ensures
        plan_view(result) == waypoints_of(*frame, route_view(found)),
{
    let cells = match found {
        Some(cells) => cells,
        None => {
            return Err(PlanError::NoPath);
        },
    };
    assert(route_view(found) == Some(cells@));
    let mut points: Vec<Point> = Vec::new();
    let mut k: usize = 0;
    while k < cells.len()
        invariant
            k <= cells.len(),
            frame.wf(),
            route_view(found) == Some(cells@),
            all_within(*frame, cells@.take(k as int)),
            points@ == points_of(*frame, cells@.take(k as int)),
        decreases cells.len() - k,
    {
        match frame.point_of(cells[k]) {
            Some(point) => {
                points.push(point);
            },
            None => {
                assert(!frame.contains(cells@[k as int]));
                assert(!all_within(*frame, cells@));
                return Err(PlanError::OutOfBounds);
            },
        }
        assert(cells@.take(k + 1) == cells@.take(k as int).push(cells@[k as int]));
        assert(points@ =~= points_of(*frame, cells@.take(k + 1)));
        k += 1;
    }
    assert(cells@.take(k as int) == cells@);
    Ok(points)
}

/// Plans a route for the robot of `scene` to its goal.
///
/// A scene without boundary, robot or goal is an `IncompleteScene`, before
/// anything else is looked at. The grid has cells of a quarter of the robot's
/// radius, and a scene that gives no grid fails as [`GridFrame::new`] says.
/// Every obstacle, widened by the radius, blocks the cells of its footprint;
/// robot and goal are moved to their nearest grid cells. The result holds the
/// points of a shortest route, counted in steps, from the robot's cell to the
/// goal's cell over free cells, or `NoPath` where there is no route. The
/// robot's own cell may be blocked; the goal's may only where it is the
/// robot's cell too, in which case the route is that one cell.
pub fn plan(scene: &Scene) -> (result: Result<Vec<Point>, PlanError>)
    ensures
        plan_view(result) == plan_outcome(*scene),
        scene_frame(*scene) matches Err(error) ==> result == Err::<Vec<Point>, PlanError>(error),
        result == Err::<Vec<Point>, PlanError>(PlanError::IncompleteScene)
            <==> !scene.is_complete(),
        scene_frame(*scene) matches Ok(frame) ==> {
            let start = robot_cell(*scene, frame);
            let goal = goal_cell(*scene, frame);
            let blocked = scene_blocked(*scene, frame);
            &&& match result {
                Ok(points) => is_shortest_plan(*scene, frame, points@),
                Err(error) => error == PlanError::NoPath && has_no_route(*scene, frame),
            }
            &&& result matches Ok(points) ==> {
                &&& points@.len() >= 1
                &&& points@[0] == frame.point_at(start)
                &&& points@[points@.len() - 1] == frame.point_at(goal)
                &&& frame.cell_of_point(points@[0]) == start
                &&& frame.cell_of_point(points@[points@.len() - 1]) == goal
            }
            &&& start == goal ==> plan_view(result) == Ok::<Seq<Point>, PlanError>(
                seq![frame.point_at(start)],
            )
            &&& scene.obstacles@.len() == 0 ==> result is Ok
            &&& start != goal && blocked.contains(goal) ==> result == Err::<Vec<Point>, PlanError>(
                PlanError::NoPath,
            )
            &&& start != goal && hemmed_in(frame, blocked, start) ==> result == Err::<
                Vec<Point>,
                PlanError,
            >(PlanError::NoPath)
        },
{
    let (boundary, robot, goal) = match validate(scene) {
        Ok(parts) => parts,
        Err(error) => {
            return Err(error);
        },
    };
    let frame = match GridFrame::new(&boundary, &robot) {
        Ok(frame) => frame,
        Err(error) => {
            return Err(error);
        },
    };
    let grid = Grid::build(&frame, &scene.obstacles, robot.radius);
    let start = frame.cell_of(robot.point);
    let target = frame.cell_of(goal.point);
    let found = breadth_first(&grid, start, target);
    proof {
        let shape = frame.shape();
        let blocked = scene_blocked(*scene, frame);
        let view = route_view(found);
        if start == target {
            lemma_same_cell_is_found(shape, blocked, start, view);
            assert(points_of(frame, seq![start]) =~= seq![frame.point_at(start)]);
        } else {
            if blocked.contains(target) {
                lemma_blocked_goal_is_not_found(shape, blocked, start, target, view);
            }
            if hemmed_in(frame, blocked, start) {
                lemma_hemmed_in_start_is_not_found(frame, blocked, start, target, view);
            }
        }
        if scene.obstacles@.len() == 0 {
            assert(blocked =~= Set::empty());
            lemma_direct_route(shape, start, target);
        }
        if view is Some {
            let cells = view->Some_0;
            lemma_route_stays_within(shape, blocked, start, target, cells);
            assert(all_within(frame, cells));
            lemma_cell_round_trip(frame, start);
            lemma_cell_round_trip(frame, target);
            assert(points_of(frame, cells)[0] == frame.point_at(cells[0]));
            assert(points_of(frame, cells)[cells.len() - 1] == frame.point_at(
                cells[cells.len() - 1],
            ));
        }
    }
    waypoints(&frame, found)
}

} // verus!
