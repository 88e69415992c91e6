//! Verified core of a cooperative multi-lane tromino game: the playfield model,
//! its bitboard twin, line clearing, board analysis, the placement path search
//! and the integer parts of the placement evaluation.

pub mod config;
pub mod tromino;
pub mod board;
pub mod game;
pub mod ai;
pub mod falling;
pub mod laws;
pub mod decision_laws;
