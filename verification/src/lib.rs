//! The decision core of an autonomous agent for a real-time, tick-based
//! maze arena on a toroidal grid: map topology extraction, a per-tick
//! breadth-first distance field, point-to-point path queries, and a
//! weighted multi-strategy combiner that turns one snapshot per tick into
//! one of four cardinal movements. The wire transport and JSON framing
//! around it live in the surrounding program.

pub mod ai;
pub mod client;
pub mod common;
pub mod game;
pub mod pathfinder;
pub mod protocol;
pub mod strategies;
pub mod traits;
