//! Shared game state that the lanes read: the low-resolution signal board.

pub mod signals;
pub mod dialog;

pub use signals::{HoleStatus, LanePace, LaneSignal, LaneSignalBoard};
