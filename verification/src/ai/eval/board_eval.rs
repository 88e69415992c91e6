//! Features read off the field before and after the placement: covered gaps
//! and filled dips, newly dug wells, holes uncovered by clears, and how full
//! the touched rows are. Each works on either board representation.

use vstd::prelude::*;
use crate::board::analysis::{find_vertical_wells_in, has_hole_below_in_row_of, is_unreachable_alcove_of, occupied_from, Occupancy};
use crate::board::model::{filled, hole_below_row, lemma_wells_in_len, unreachable_alcove, wells_in};
use crate::config::{LANE_HEIGHT, TOTAL_GRID_WIDTH};

verus! {

/// Some cell of column `x` above row `y` is occupied.
pub open spec fn roofed_above(g: Seq<Seq<bool>>, x: int, y: int) -> bool {
    exists|ry: int| y < ry < LANE_HEIGHT && #[trigger] filled(g, x, ry)
}

/// Cost of cell `(x, uy)` under a placed piece, judged on the field before
/// (`before`) and after (`after`) the placement: nothing when filled; 5 when
/// it was an unreachable alcove anyway; 220 when it was open to the sky and
/// is now covered; otherwise 15.
pub open spec fn gap_cost(before: Seq<Seq<bool>>, after: Seq<Seq<bool>>, x: int, uy: int) -> int {
    if filled(after, x, uy) {
        0
    } else if unreachable_alcove(before, x, uy) {
        -5
    } else if !roofed_above(before, x, uy) {
        -220
    } else {
        -15
    }
}

/// Sum of `gap_cost` over rows `0..n` of column `x`.
pub open spec fn gaps_cost(before: Seq<Seq<bool>>, after: Seq<Seq<bool>>, x: int, n: int) -> int
    decreases n,
{
    if n <= 0 {
        0
    } else {
        gaps_cost(before, after, x, n - 1) + gap_cost(before, after, x, n - 1)
    }
}

/// Roof penalty and fill bonus of one piece cell `(cx, cy)`: the gaps below
/// it, and 65 when it slips under a cell that was already occupied above it.
/// Cells outside the field's columns count for nothing.
pub open spec fn cell_roof_and_hole(before: Seq<Seq<bool>>, after: Seq<Seq<bool>>, cx: int, cy: int) -> (int, int) {
    if 0 <= cx < TOTAL_GRID_WIDTH {
        (
            gaps_cost(before, after, cx, vstd::math::min(cy, LANE_HEIGHT as int)),
            if cy >= 0 && roofed_above(before, cx, cy) { 65 } else { 0 },
        )
    } else {
        (0, 0)
    }
}

/// Sum of `cell_roof_and_hole` over the first `n` cells of the piece at `(x, y)`.
pub open spec fn roof_and_hole(
    before: Seq<Seq<bool>>,
    after: Seq<Seq<bool>>,
    offs: Seq<(i32, i32)>,
    x: int,
    y: int,
    n: int,
) -> (int, int)
    decreases n,
{
    if n <= 0 {
        (0, 0)
    } else {
        let prev = roof_and_hole(before, after, offs, x, y, n - 1);
        let c = cell_roof_and_hole(before, after, x + offs[n - 1].0, y + offs[n - 1].1);
        (prev.0 + c.0, prev.1 + c.1)
    }
}

/// Gap cost of the rows `0..n` below one cell in column `cx`.
fn gaps_below<B: Occupancy>(before: &B, after: &B, cx: usize, n: usize) -> (r: i64)
    requires
        cx < TOTAL_GRID_WIDTH,
        n <= LANE_HEIGHT,
    ensures
        r == gaps_cost(before.occupancy(), after.occupancy(), cx as int, n as int),
        -220 * n <= r <= 0,
{
    let mut total: i64 = 0;
    let mut uy: usize = 0;
    while uy < n
        invariant
            0 <= uy <= n,
            n <= LANE_HEIGHT,
            cx < TOTAL_GRID_WIDTH,
            total == gaps_cost(before.occupancy(), after.occupancy(), cx as int, uy as int),
            -220 * uy <= total <= 0,
        decreases n - uy,
    {
        if !after.cell_at(cx, uy) {
            if is_unreachable_alcove_of(before, cx, uy) {
                total = total - 5;
            } else if !occupied_from(before, cx, uy + 1) {
                total = total - 220;
            } else {
                total = total - 15;
            }
        }
        uy += 1;
    }
    total
}

/// Penalty for covering empty cells under the piece and bonus for tucking
/// cells under an existing overhang, for the piece at `(x, y)` on the field
/// `before` the placement, which becomes `after`.
pub fn roof_and_hole_of<B: Occupancy>(before: &B, after: &B, offsets: &[(i32, i32)], x: i32, y: i32) -> (r: (i64, i64))
    requires
        offsets@.len() <= 0x1_0000,
        forall|i: int|
            0 <= i < offsets@.len() ==> i32::MIN <= x + #[trigger] offsets@[i].0 <= i32::MAX && i32::MIN <= y
                + offsets@[i].1 <= i32::MAX,
        forall|i: int|
            0 <= i < offsets@.len() && 0 <= x + #[trigger] offsets@[i].0 < TOTAL_GRID_WIDTH ==> y + offsets@[i].1 != -1,
    ensures
        r.0 == roof_and_hole(before.occupancy(), after.occupancy(), offsets@, x as int, y as int, offsets@.len() as int).0,
        r.1 == roof_and_hole(before.occupancy(), after.occupancy(), offsets@, x as int, y as int, offsets@.len() as int).1,
{
    let mut roof: i64 = 0;
    let mut fill: i64 = 0;
    let mut i: usize = 0;
    while i < offsets.len()
        invariant
            0 <= i <= offsets@.len(),
            offsets@.len() <= 0x1_0000,
            forall|k: int|
                0 <= k < offsets@.len() ==> i32::MIN <= x + #[trigger] offsets@[k].0 <= i32::MAX && i32::MIN <= y
                    + offsets@[k].1 <= i32::MAX,
            forall|k: int|
                0 <= k < offsets@.len() && 0 <= x + #[trigger] offsets@[k].0 < TOTAL_GRID_WIDTH ==> y + offsets@[k].1 != -1,
            roof == roof_and_hole(before.occupancy(), after.occupancy(), offsets@, x as int, y as int, i as int).0,
            fill == roof_and_hole(before.occupancy(), after.occupancy(), offsets@, x as int, y as int, i as int).1,
            -(i * 4180) <= roof <= 0,
            0 <= fill <= i * 65,
        decreases offsets.len() - i,
    {
        let (dx, dy) = offsets[i];
        let cx = x + dx;
        let cy = y + dy;
        if cx >= 0 && (cx as usize) < TOTAL_GRID_WIDTH {
            let cxu = cx as usize;
            if cy >= 0 {
                let above = if (cy as usize) + 1 < LANE_HEIGHT {
                    occupied_from(before, cxu, cy as usize + 1)
                } else {
                    false
                };
                if above {
                    fill = fill + 65;
                }
                let n: usize = if cy < LANE_HEIGHT as i32 { cy as usize } else { LANE_HEIGHT };
                let g = gaps_below(before, after, cxu, n);
                roof = roof + g;
            }
        }
        i += 1;
    }
    (roof, fill)
}

/// Depth of the first well of `prev` in column `x`, or 0 when none is.
pub open spec fn prev_well_depth(prev: Seq<(usize, usize, usize)>, x: usize) -> int
    decreases prev.len(),
{
    if prev.len() == 0 {
        0
    } else if prev[0].0 == x {
        prev[0].2 as int
    } else {
        prev_well_depth(prev.drop_first(), x)
    }
}

/// Penalty for digging a well of the given depth: 180 (two), 280 (three), 360 (deeper).
pub open spec fn well_dig_cost(depth: int) -> int {
    if depth == 2 {
        180
    } else if depth == 3 {
        280
    } else {
        360
    }
}

/// Penalty for the wells among the first `n` of `after` that are at least two
/// deep and deeper than the well in their column in `prev`.
pub open spec fn well_creation(after: Seq<(usize, usize, usize)>, prev: Seq<(usize, usize, usize)>, n: int) -> int
    decreases n,
{
    if n <= 0 {
        0
    } else {
        let w = after[n - 1];
        well_creation(after, prev, n - 1) - if w.2 >= 2 && w.2 > prev_well_depth(prev, w.0) {
            well_dig_cost(w.2 as int)
        } else {
            0
        }
    }
}

/// Depth of the first well of `prev` in column `x`, or 0.
fn find_prev_depth(prev: &Vec<(usize, usize, usize)>, x: usize) -> (r: usize)
    ensures
        r == prev_well_depth(prev@, x),
{
    let mut i: usize = 0;
    assert(prev@.subrange(0, prev@.len() as int) =~= prev@);
    while i < prev.len()
        invariant
            0 <= i <= prev@.len(),
            prev_well_depth(prev@, x) == prev_well_depth(prev@.subrange(i as int, prev@.len() as int), x),
        decreases prev.len() - i,
    {
        assert(prev@.subrange(i as int, prev@.len() as int).drop_first() =~= prev@.subrange(i + 1, prev@.len() as int));
        if prev[i].0 == x {
            return prev[i].2;
        }
        i += 1;
    }
    0
}

/// Penalty for wells of `after` at least two deep and deeper than before.
fn well_creation_between(after: &Vec<(usize, usize, usize)>, prev: &Vec<(usize, usize, usize)>) -> (r: i64)
    requires
        after@.len() <= 0x1_0000,
    ensures
        r == well_creation(after@, prev@, after@.len() as int),
{
    let mut total: i64 = 0;
    let mut i: usize = 0;
    while i < after.len()
        invariant
            0 <= i <= after@.len(),
            after@.len() <= 0x1_0000,
            total == well_creation(after@, prev@, i as int),
            -(i * 360) <= total <= 0,
        decreases after.len() - i,
    {
        let (fx, _, fd) = after[i];
        let pd = find_prev_depth(prev, fx);
        if fd >= 2 && fd > pd {
            let cost: i64 = if fd == 2 {
                180
            } else if fd == 3 {
                280
            } else {
                360
            };
            total = total - cost;
        }
        i += 1;
    }
    total
}

/// Penalty for digging new vertical wells (at least two deep, deeper than the
/// well that stood in the same column) on the field `before` the placement,
/// which becomes `after`.
pub fn well_creation_of<B: Occupancy>(before: &B, after: &B) -> (r: i64)
    ensures
        r == well_creation(
            wells_in(after.occupancy(), 0, TOTAL_GRID_WIDTH as int),
            wells_in(before.occupancy(), 0, TOTAL_GRID_WIDTH as int),
            wells_in(after.occupancy(), 0, TOTAL_GRID_WIDTH as int).len() as int,
        ),
{
    let after_wells = find_vertical_wells_in(after, 0, TOTAL_GRID_WIDTH - 1);
    let prev_wells = find_vertical_wells_in(before, 0, TOTAL_GRID_WIDTH - 1);
    proof {
        lemma_wells_in_len(after.occupancy(), 0, TOTAL_GRID_WIDTH as int);
    }
    well_creation_between(&after_wells, &prev_wells)
}

/// Number of the first `n` cleared rows below which some column had a hole.
pub open spec fn rows_over_holes(g: Seq<Seq<bool>>, cleared: Seq<usize>, n: int) -> nat
    decreases n,
{
    if n <= 0 {
        0
    } else {
        rows_over_holes(g, cleared, n - 1) + if hole_below_row(g, cleared[n - 1] as int) { 1nat } else { 0nat }
    }
}

/// Bonus of 120 for every cleared row that had a hole below it.
pub fn hole_clearance_of<B: Occupancy>(after: &B, future_cleared_indices: &[usize]) -> (r: i64)
    requires
        future_cleared_indices@.len() <= 0x1_0000,
    ensures
        r == 120 * rows_over_holes(after.occupancy(), future_cleared_indices@, future_cleared_indices@.len() as int),
{
    let mut count: i64 = 0;
    let mut i: usize = 0;
    while i < future_cleared_indices.len()
        invariant
            0 <= i <= future_cleared_indices@.len(),
            future_cleared_indices@.len() <= 0x1_0000,
            count == rows_over_holes(after.occupancy(), future_cleared_indices@, i as int),
            count <= i,
        decreases future_cleared_indices.len() - i,
    {
        if has_hole_below_in_row_of(after, future_cleared_indices[i]) {
            count = count + 1;
        }
        i += 1;
    }
    count * 120
}

} // verus!
