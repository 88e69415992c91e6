//! Values the lanes exchange about planned placements.

use vstd::prelude::*;
use crate::tromino::TrominoKind;

verus! {

/// Where another player's piece is predicted to land.
#[derive(Debug, Clone, Copy)]
pub struct PredictedPlacement {
    pub player_id: usize,
    pub kind: TrominoKind,
    pub rotation: usize,
    pub target_x: i32,
    pub landing_y: i32,
}

} // verus!
