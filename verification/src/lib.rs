//! Route planning for a circular robot in a rectangular workspace.
//!
//! A scene (boundary, robot, goal and rectangular obstacles, all in integer
//! length units of the caller's choice) is discretized into an occupancy grid
//! whose cell size is a quarter of the robot's radius. Obstacles are widened by
//! the robot's radius and stamped into the grid, and a breadth-first search
//! over the eight-connected free cells yields the waypoints from the robot to
//! the goal.
//!
//! - [`scene`]: the entities of a scene and the planning errors.
//! - [`frame`]: the mapping between coordinates and grid cells.
//! - [`grid`]: the occupancy grid.
//! - [`search`]: neighbours, routes and the search.
//! - [`planner`]: `plan`, from a scene to waypoints.
//! - [`registry`]: named problems and the requests that change them.

pub mod scene;
pub mod frame;
pub mod grid;
pub mod search;
pub mod planner;
pub mod registry;
