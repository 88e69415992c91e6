//! Placement features on the full board.

use vstd::prelude::*;
use super::board_eval::{hole_clearance_of, roof_and_hole, roof_and_hole_of, rows_over_holes, well_creation, well_creation_of};
use crate::board::model::wells_in;
use crate::board::GlobalBoard;
use crate::config::TOTAL_GRID_WIDTH;

verus! {

/// Penalty for covering empty cells under the piece at `(x, y)` and bonus for
/// tucking its cells under an existing overhang, judged on `future_board`
/// before the placement and `sim_future` after it (see `roof_and_hole`).
pub fn evaluate_roof_and_hole_global(
    future_board: &GlobalBoard,
    sim_future: &GlobalBoard,
    offsets: &[(i32, i32)],
    x: i32,
    y: i32,
) -> (r: (i64, i64))
    requires
        offsets@.len() <= 0x1_0000,
        forall|i: int|
            0 <= i < offsets@.len() ==> i32::MIN <= x + #[trigger] offsets@[i].0 <= i32::MAX && i32::MIN <= y
                + offsets@[i].1 <= i32::MAX,
        forall|i: int|
            0 <= i < offsets@.len() && 0 <= x + #[trigger] offsets@[i].0 < TOTAL_GRID_WIDTH ==> y + offsets@[i].1 != -1,
    ensures
        r.0 == roof_and_hole(future_board.grid(), sim_future.grid(), offsets@, x as int, y as int, offsets@.len() as int).0,
        r.1 == roof_and_hole(future_board.grid(), sim_future.grid(), offsets@, x as int, y as int, offsets@.len() as int).1,
{
    roof_and_hole_of(future_board, sim_future, offsets, x, y)
}

/// Penalty for vertical wells at least two deep that `sim_future` has and
/// `future_board` had shallower or not at all (see `well_creation`).
pub fn evaluate_well_creation_global(future_board: &GlobalBoard, sim_future: &GlobalBoard) -> (r: i64)
    ensures
        r == well_creation(
            wells_in(sim_future.grid(), 0, TOTAL_GRID_WIDTH as int),
            wells_in(future_board.grid(), 0, TOTAL_GRID_WIDTH as int),
            wells_in(sim_future.grid(), 0, TOTAL_GRID_WIDTH as int).len() as int,
        ),
{
    well_creation_of(future_board, sim_future)
}

/// Bonus of 120 for every row of `future_cleared_indices` below which
/// `sim_future` has a column with an empty cell under an occupied one.
pub fn evaluate_hole_clearance_global(sim_future: &GlobalBoard, future_cleared_indices: &[usize]) -> (r: i64)
    requires
        future_cleared_indices@.len() <= 0x1_0000,
    ensures
        r == 120 * rows_over_holes(sim_future.grid(), future_cleared_indices@, future_cleared_indices@.len() as int),
{
    hole_clearance_of(sim_future, future_cleared_indices)
}

} // verus!
