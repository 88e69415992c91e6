//! Placement features on the bitboard.

use vstd::prelude::*;
use super::board_eval::{hole_clearance_of, roof_and_hole, roof_and_hole_of, rows_over_holes, well_creation, well_creation_of};
use crate::board::model::wells_in;
use crate::board::CompactBoard;
use crate::board::compact::has_bit;
use crate::config::{LANE_HEIGHT, TOTAL_GRID_WIDTH};

verus! {

/// Penalty for covering empty cells under the piece at `(x, y)` and bonus for
/// tucking its cells under an existing overhang, judged on `future_board`
/// before the placement and `sim_future` after it (see `roof_and_hole`).
pub fn evaluate_roof_and_hole_compact(
    future_board: &CompactBoard,
    sim_future: &CompactBoard,
    offsets: &[(i32, i32)],
    x: i32,
    y: i32,
) -> (r: (i64, i64))
    requires
        offsets@.len() <= 0x1_0000,
        forall|i: int|
            0 <= i < offsets@.len() ==> i32::MIN <= x + #[trigger] offsets@[i].0 <= i32::MAX && i32::MIN <= y
                + offsets@[i].1 <= i32::MAX,
        forall|i: int|
            0 <= i < offsets@.len() && 0 <= x + #[trigger] offsets@[i].0 < TOTAL_GRID_WIDTH ==> y + offsets@[i].1 != -1,
    ensures
        r.0 == roof_and_hole(future_board.grid(), sim_future.grid(), offsets@, x as int, y as int, offsets@.len() as int).0,
        r.1 == roof_and_hole(future_board.grid(), sim_future.grid(), offsets@, x as int, y as int, offsets@.len() as int).1,
{
    roof_and_hole_of(future_board, sim_future, offsets, x, y)
}

/// Penalty for vertical wells at least two deep that `sim_future` has and
/// `future_board` had shallower or not at all (see `well_creation`).
pub fn evaluate_well_creation_compact(future_board: &CompactBoard, sim_future: &CompactBoard) -> (r: i64)
    ensures
        r == well_creation(
            wells_in(sim_future.grid(), 0, TOTAL_GRID_WIDTH as int),
            wells_in(future_board.grid(), 0, TOTAL_GRID_WIDTH as int),
            wells_in(sim_future.grid(), 0, TOTAL_GRID_WIDTH as int).len() as int,
        ),
{
    well_creation_of(future_board, sim_future)
}

/// Bonus of 120 for every row of `future_cleared_indices` below which
/// `sim_future` has a column with an empty cell under an occupied one.
pub fn evaluate_hole_clearance_compact(sim_future: &CompactBoard, future_cleared_indices: &[usize]) -> (r: i64)
    requires
        future_cleared_indices@.len() <= 0x1_0000,
    ensures
        r == 120 * rows_over_holes(sim_future.grid(), future_cleared_indices@, future_cleared_indices@.len() as int),
{
    hole_clearance_of(sim_future, future_cleared_indices)
}

/// Number of set cells among the first `n` of `row`.
pub open spec fn cells_set(row: Seq<bool>, n: int) -> nat
    decreases n,
{
    if n <= 0 {
        0
    } else {
        cells_set(row, n - 1) + if row[n - 1] { 1nat } else { 0nat }
    }
}

/// Rows counted towards the row-fill bonus, as `(set bits, LANE_HEIGHT - row)`:
/// for each of the first `n` cells of the piece in turn, the row `y` plus the
/// cell's first offset, when that row is on the field and has at least 16 of
/// its 32 bits set.
pub open spec fn row_fill_rows(words: Seq<Seq<bool>>, offs: Seq<(i32, i32)>, y: int, n: int) -> Seq<(u32, usize)>
    decreases n,
{
    if n <= 0 {
        seq![]
    } else {
        let prev = row_fill_rows(words, offs, y, n - 1);
        let row = y + offs[n - 1].0;
        if 0 <= row < LANE_HEIGHT && cells_set(words[row], 32) >= 16 {
            prev.push((cells_set(words[row], 32) as u32, (LANE_HEIGHT - row) as usize))
        } else {
            prev
        }
    }
}

/// Number of set bits of `v`.
fn bit_count(v: u32) -> (r: u32)
    ensures
        r == cells_set(crate::board::compact::word_row(v), 32),
        r <= 32,
{
    let ghost w = crate::board::compact::word_row(v);
    let mut r: u32 = 0;
    let mut k: u32 = 0;
    while k < 32
        invariant
            0 <= k <= 32,
            w == crate::board::compact::word_row(v),
            r == cells_set(w, k as int),
            r <= k,
        decreases 32 - k,
    {
        if v & (1u32 << k) != 0 {
            r = r + 1;
        }
        assert(w[k as int] == has_bit(v, k as int));
        k = k + 1;
    }
    r
}

/// The rows behind the row-fill bonus of the piece at row `y`: for each cell
/// in turn, the row `y` plus the cell's first offset, when it is on the field
/// and at least 16 of its bits are set, as `(set bits, LANE_HEIGHT - row)`.
/// The bonus is 12 × (set bits / TOTAL_GRID_WIDTH)² × (LANE_HEIGHT - row),
/// summed over these rows.
pub fn evaluate_row_fill_compact(sim_future: &CompactBoard, offsets: &[(i32, i32)], y: i32) -> (r: Vec<(u32, usize)>)
    requires
        forall|i: int| 0 <= i < offsets@.len() ==> i32::MIN <= y + #[trigger] offsets@[i].0 <= i32::MAX,
    ensures
        r@ == row_fill_rows(sim_future.words(), offsets@, y as int, offsets@.len() as int),
{
    let mut out: Vec<(u32, usize)> = Vec::new();
    let mut i: usize = 0;
    while i < offsets.len()
        invariant
            0 <= i <= offsets@.len(),
            forall|k: int| 0 <= k < offsets@.len() ==> i32::MIN <= y + #[trigger] offsets@[k].0 <= i32::MAX,
            out@ == row_fill_rows(sim_future.words(), offsets@, y as int, i as int),
        decreases offsets.len() - i,
    {
        let row = y + offsets[i].0;
        if row >= 0 && (row as usize) < LANE_HEIGHT {
            let ru = row as usize;
            let count = bit_count(sim_future.rows[ru]);
            assert(sim_future.words()[ru as int] == crate::board::compact::word_row(sim_future.rows[ru as int]));
            if count >= 16 {
                out.push((count, LANE_HEIGHT - ru));
            }
        }
        i += 1;
    }
    out
}

} // verus!
