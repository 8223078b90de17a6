//! The entities of a scene, in integer length units chosen by the caller.

use vstd::prelude::*;

verus! {

/// A position in the plane.
#[derive(Clone, Copy, Debug, PartialEq, Eq, Structural)]
pub struct Point {
    pub x: i64,
    pub y: i64,
}

/// The workspace: the rectangle that starts at `point` and extends `width`
/// along x and `length` along y.
#[derive(Clone, Copy, Debug, PartialEq, Eq, Structural)]
pub struct Boundary {
    pub point: Point,
    pub width: i64,
    pub length: i64,
}

/// A circular robot, given by its centre and radius.
#[derive(Clone, Copy, Debug, PartialEq, Eq, Structural)]
pub struct Robot {
    pub point: Point,
    pub radius: i64,
}

/// The position the robot has to reach.
#[derive(Clone, Copy, Debug, PartialEq, Eq, Structural)]
pub struct Goal {
    pub point: Point,
}

/// An axis-aligned rectangular obstacle that starts at `point`.
#[derive(Clone, Copy, Debug, PartialEq, Eq, Structural)]
pub struct Obstacle {
    pub point: Point,
    pub width: i64,
    pub length: i64,
}

/// A snapshot of one workspace. Boundary, robot and goal may still be unset.
#[derive(Clone, Debug)]
pub struct Scene {
    pub boundary: Option<Boundary>,
    pub robot: Option<Robot>,
    pub goal: Option<Goal>,
    pub obstacles: Vec<Obstacle>,
}

/// Why no route was produced.
#[derive(Clone, Copy, Debug, PartialEq, Eq, Structural)]
pub enum PlanError {
    /// Boundary, robot or goal is not set.
    IncompleteScene,
    /// The scene leaves no grid cell to work on, or does not fit the
    /// coordinate range.
    OutOfBounds,
    /// The grid would have more cells than the cell budget allows.
    GridTooLarge,
    /// The search ended without reaching the goal.
    NoPath,
}

impl PlanError {
    /// A short description for messages.
    pub fn describe(&self) -> (text: &'static str)
        ensures
            text@ == describe_error(*self),
    {
        match self {
            PlanError::IncompleteScene => "incomplete scene",
            PlanError::OutOfBounds => "out of bounds",
            PlanError::GridTooLarge => "grid too large",
            PlanError::NoPath => "no path",
        }
    }
}

/// The text that [`PlanError::describe`] gives for each error.
pub open spec fn describe_error(error: PlanError) -> Seq<char> {
    match error {
        PlanError::IncompleteScene => "incomplete scene"@,
        PlanError::OutOfBounds => "out of bounds"@,
        PlanError::GridTooLarge => "grid too large"@,
        PlanError::NoPath => "no path"@,
    }
}

impl Scene {
    /// Whether boundary, robot and goal are all set.
    pub open spec fn is_complete(self) -> bool {
        self.boundary is Some && self.robot is Some && self.goal is Some
    }

    /// A scene with nothing set and no obstacles.
    pub fn new() -> (scene: Scene)
        ensures
            scene.boundary is None,
            scene.robot is None,
            scene.goal is None,
            scene.obstacles@.len() == 0,
    {
        Scene { boundary: None, robot: None, goal: None, obstacles: Vec::new() }
    }
}

} // verus!
