//! Verified core of a grid resource-gathering simulation: map, path search,
//! robots, player actions, store and save progression.

pub mod types;
pub mod config;
pub mod message;
pub mod levels;
pub mod save;
pub mod pos_map;
pub mod map;
pub mod pathfinding;
pub mod rng;
pub mod simulation;
pub mod store;
pub mod robot;
pub mod menu;
