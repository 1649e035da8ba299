//! Core simulation of a grid snake game: direction intents, tick-based
//! movement with wall and self-collision detection, food placement, and
//! rendering of the state into a pixel buffer.

pub mod game;
pub mod laws;
mod rng;
