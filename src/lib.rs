//! Simulation core of a two-team tower-defense match: the board and its
//! spatial index, the entity tables, the pathfinder, the validation of the
//! actions that each team submits, and the world-update steps of a turn.

pub mod actions;
pub mod combat;
pub mod entities;
pub mod errors;
pub mod game;
pub mod grid;
pub mod laws;
pub mod pathfinder;
pub mod placement;
pub mod turn;
pub mod types;
pub mod world;
