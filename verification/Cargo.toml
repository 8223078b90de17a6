[package]
name = "path_planner"
version = "0.1.0"
edition = "2021"
publish = false

[dependencies]
pathfinding = "*"
ndarray = "*"
itertools = "*"
rocket = { version = "0.5", features = ["json"] }
serde = { version = "1", features = ["derive"] }
