[package]
name = "allie"
version = "0.1.0"
edition = "2021"
publish = false

[dependencies]
pathfinding = "*"
itertools = "*"
serde_json = "*"
clap = "*"
