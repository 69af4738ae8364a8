//! Decision core of a Hex-playing agent.
//!
//! The library models the board and its tiles, tracks connectivity per colour
//! with a union-find structure, detects wins, and selects moves with an
//! iterative potential-field heuristic.

pub mod board;
pub mod bot;
pub mod eval;
pub mod opening;
pub mod rng;
pub mod state;
pub mod stateless;
pub mod tile;
pub mod union_find;
mod text;
