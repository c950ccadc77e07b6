//! Deterministic simulation core of a grid Snake game.
//!
//! The engine advances a variable-length snake on a fixed-size toroidal
//! grid one cell per tick, buffers turn requests, detects self-collision,
//! manages a single food item with random off-snake respawn, and resets
//! the whole round to a fixed initial configuration on game over.
//! Rendering, input polling and clocking live outside this crate; the
//! engine exchanges only plain grid coordinates and opaque entity handles
//! with them.

pub mod food;
pub mod game;
pub mod grid;
pub mod snake;
