//! Whole-field shape metrics and placement bonuses that depend only on where
//! the piece lands.

use vstd::prelude::*;
use crate::board::{is_border_column, spec_is_border_column};
use crate::config::{LANE_HEIGHT, TOTAL_GRID_WIDTH};
use crate::tromino::TrominoKind;

verus! {

/// Sum of the first `n` column heights.
pub open spec fn heights_sum(h: Seq<usize>, n: int) -> int
    decreases n,
{
    if n <= 0 {
        0
    } else {
        heights_sum(h, n - 1) + h[n - 1]
    }
}

/// Largest of the first `n` column heights (0 when `n` is 0).
pub open spec fn heights_max(h: Seq<usize>, n: int) -> int
    decreases n,
{
    if n <= 0 {
        0
    } else {
        vstd::math::max(heights_max(h, n - 1), h[n - 1] as int)
    }
}

/// Sum of the height differences of neighbouring columns among the first `n`.
pub open spec fn heights_bumpiness(h: Seq<usize>, n: int) -> int
    decreases n,
{
    if n <= 1 {
        0
    } else {
        heights_bumpiness(h, n - 1) + vstd::math::abs(h[n - 2] - h[n - 1])
    }
}

/// Sum of the column heights, the largest height, and the bumpiness (the sum
/// of the height differences of neighbouring columns).
pub fn calculate_height_metrics(heights: &[usize; TOTAL_GRID_WIDTH]) -> (r: (u64, u64, u64))
    requires
        forall|i: int| 0 <= i < TOTAL_GRID_WIDTH ==> #[trigger] heights[i] <= u32::MAX,
    ensures
        r.0 == heights_sum(heights@, TOTAL_GRID_WIDTH as int),
        r.1 == heights_max(heights@, TOTAL_GRID_WIDTH as int),
        r.2 == heights_bumpiness(heights@, TOTAL_GRID_WIDTH as int),
{
    let mut sum: u64 = 0;
    let mut max: u64 = 0;
    let mut bump: u64 = 0;
    let mut i: usize = 0;
    while i < TOTAL_GRID_WIDTH
        invariant
            0 <= i <= TOTAL_GRID_WIDTH,
            forall|k: int| 0 <= k < TOTAL_GRID_WIDTH ==> #[trigger] heights[k] <= u32::MAX,
            sum == heights_sum(heights@, i as int),
            sum <= i * u32::MAX,
            max == heights_max(heights@, i as int),
            bump == heights_bumpiness(heights@, i as int),
            bump <= i * u32::MAX,
        decreases TOTAL_GRID_WIDTH - i,
    {
        let h = heights[i] as u64;
        sum = sum + h;
        if h > max {
            max = h;
        }
        if i > 0 {
            let prev = heights[i - 1] as u64;
            bump = bump + if prev > h { prev - h } else { h - prev };
        }
        i += 1;
    }
    (sum, max, bump)
}

/// Number of the first `n` cells of the piece at column `x` that lie in a separator column.
pub open spec fn border_cells(offs: Seq<(i32, i32)>, x: int, n: int) -> nat
    decreases n,
{
    if n <= 0 {
        0
    } else {
        border_cells(offs, x, n - 1) + if spec_is_border_column(x + offs[n - 1].0) { 1nat } else { 0nat }
    }
}

/// Bridge bonus and barrier penalty of a piece with `count` cells in
/// separator columns, whose separator column already stands `border_height`
/// high: an upright straight piece filling three separator cells builds a
/// wall (the worse on an existing stack); any other use of the separator
/// earns 18 per cell.
pub open spec fn border_score(kind: TrominoKind, rot: nat, count: nat, border_height: nat) -> (int, int) {
    if count == 0 {
        (0, 0)
    } else if kind == TrominoKind::Straight && rot % 2 == 1 && count == 3 {
        (0, if border_height > 0 { -350 } else { -220 })
    } else {
        ((count * 18) as int, 0)
    }
}

/// Bonus for bridging lanes through separator columns and penalty for
/// walling a separator column with an upright straight piece.
pub fn calculate_border_metrics(
    kind: &TrominoKind,
    rot: usize,
    x: i32,
    offsets: &[(i32, i32)],
    existing_border_col_height: usize,
) -> (r: (i64, i64))
    requires
        offsets@.len() <= i32::MAX,
        forall|i: int| 0 <= i < offsets@.len() ==> i32::MIN <= x + #[trigger] offsets@[i].0 <= i32::MAX,
    ensures
        r.0 == border_score(*kind, rot as nat, border_cells(offsets@, x as int, offsets@.len() as int), existing_border_col_height as nat).0,
        r.1 == border_score(*kind, rot as nat, border_cells(offsets@, x as int, offsets@.len() as int), existing_border_col_height as nat).1,
{
    let mut count: u64 = 0;
    let mut i: usize = 0;
    while i < offsets.len()
        invariant
            0 <= i <= offsets@.len(),
            offsets@.len() <= i32::MAX,
            forall|k: int| 0 <= k < offsets@.len() ==> i32::MIN <= x + #[trigger] offsets@[k].0 <= i32::MAX,
            count == border_cells(offsets@, x as int, i as int),
            count <= i,
        decreases offsets.len() - i,
    {
        let cx = x + offsets[i].0;
        if cx >= 0 && is_border_column(cx as usize) {
            count += 1;
        }
        i += 1;
    }
    if count == 0 {
        return (0, 0);
    }
    let is_vertical_straight = match kind {
        TrominoKind::Straight => rot % 2 == 1,
        TrominoKind::Corner => false,
    };
    if is_vertical_straight && count == 3 {
        if existing_border_col_height > 0 {
            (0, -350)
        } else {
            (0, -220)
        }
    } else {
        (count as i64 * 18, 0)
    }
}

/// Bonus for landing low: 8 per row between the landing row and the top of the field.
pub open spec fn bottom_priority(y: int) -> int {
    vstd::math::max(LANE_HEIGHT - y, 0) * 8
}

/// Bonus for landing close to the floor.
pub fn calculate_bottom_priority_bonus(y: i32) -> (r: i64)
    requires
        y >= i32::MIN + LANE_HEIGHT,
    ensures
        r == bottom_priority(y as int),
{
    let d: i64 = LANE_HEIGHT as i64 - y as i64;
    if d > 0 {
        d * 8
    } else {
        0
    }
}

} // verus!
