//! Lane AI: landing-path search and the integer parts of placement scoring.

pub mod types;
pub mod pathfinding;
pub mod search;
pub mod eval;
