//! Core engine of a falling-block puzzle game.
//!
//! The library models the grid, the seven tetromino shapes, collision
//! testing, line clearing with gravity cascade, the shuffled-bag piece
//! sequencer, and the per-step game state machine.  Rendering and raw
//! input handling live outside the library and consume its plain state.

pub mod geometry;
pub mod piece;
pub mod board;
pub mod sequencer;
pub mod game;
