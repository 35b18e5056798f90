//! Verified core of a falling-block puzzle game: tetromino shapes and
//! rotation, the playfield with collision, locking, line clearing and
//! column gravity, scoring, and the frame-by-frame game state machine.

pub mod shapes;
pub mod piece;
pub mod board;
pub mod scoring;
mod chance;
pub mod game;
pub mod laws;
pub mod rules;
pub mod rule_laws;
