//! Rules of chess on an 8x8 board: piece movement, threatened squares,
//! check and pin resolution, and move application.
//!
//! `state` holds the mathematical model of a position and defines, over it,
//! what every function of the library computes.  `board` holds the board
//! itself; `threats`, `movegen` and `resolver` compute threatened squares,
//! candidate moves and legal moves on it; `history` commits moves.  `laws`
//! and `safety` state and prove what holds of every position.

pub mod board;
pub mod geometry;
pub mod history;
pub mod laws;
pub mod movegen;
pub mod pieces;
pub mod resolver;
pub mod safety;
pub mod sets;
pub mod squares;
pub mod state;
pub mod threats;
