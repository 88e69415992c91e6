//! Occupancy model shared by both board representations: a grid of
//! `LANE_HEIGHT` rows of `TOTAL_GRID_WIDTH` booleans, row 0 at the bottom.

use vstd::prelude::*;
use crate::config::{LANE_HEIGHT, TOTAL_GRID_WIDTH};

verus! {

/// Cell `(x, y)` lies on the grid and is occupied.
pub open spec fn filled(g: Seq<Seq<bool>>, x: int, y: int) -> bool {
    0 <= y < g.len() && 0 <= x < g[y].len() && g[y][x]
}

/// The grid has the field's dimensions.
pub open spec fn grid_wf(g: Seq<Seq<bool>>) -> bool {
    &&& g.len() == LANE_HEIGHT
    &&& forall|y: int| 0 <= y < LANE_HEIGHT ==> #[trigger] g[y].len() == TOTAL_GRID_WIDTH
}

/// Height of column `x` counting only rows below `n`: one more than the
/// highest occupied row under `n`, or 0.
pub open spec fn height_below(g: Seq<Seq<bool>>, x: int, n: int) -> nat
    decreases n,
{
    if n <= 0 {
        0
    } else if filled(g, x, n - 1) {
        n as nat
    } else {
        height_below(g, x, n - 1)
    }
}

/// Height of column `x`: one more than its highest occupied row, or 0 when empty.
pub open spec fn column_height(g: Seq<Seq<bool>>, x: int) -> nat {
    height_below(g, x, LANE_HEIGHT as int)
}

} // verus!

verus! {

/// A cell is blocked for a falling piece: outside the side walls or below the
/// floor, a separator wall in the spawn band, or an occupied field cell.
/// Cells above the top row are free.
pub open spec fn occupied(g: Seq<Seq<bool>>, x: int, y: int) -> bool {
    ||| x < 0
    ||| x >= TOTAL_GRID_WIDTH
    ||| y < 0
    ||| (y >= crate::config::SPAWN_WALL_MIN_Y && crate::board::spec_is_border_column(x))
    ||| (y < LANE_HEIGHT && g[y][x])
}

/// A piece with the given cell offsets can stand with its origin at `(x, y)`.
pub open spec fn piece_fits(g: Seq<Seq<bool>>, offs: Seq<(i32, i32)>, x: int, y: int) -> bool {
    forall|i: int| 0 <= i < offs.len() ==> !occupied(g, x + #[trigger] offs[i].0, y + offs[i].1)
}

} // verus!

verus! {

/// The piece with offsets `offs` placed at `(bx, by)` covers cell `(x, y)`.
pub open spec fn piece_covers(offs: Seq<(i32, i32)>, bx: int, by: int, x: int, y: int) -> bool {
    exists|i: int| 0 <= i < offs.len() && bx + #[trigger] offs[i].0 == x && by + offs[i].1 == y
}

/// Some cell of the piece placed at row `by` lies above the top row.
pub open spec fn piece_overflows(offs: Seq<(i32, i32)>, by: int) -> bool {
    exists|i: int| 0 <= i < offs.len() && by + #[trigger] offs[i].1 >= LANE_HEIGHT
}

/// Rows among the first `n` that `full` rejects, in order.
pub open spec fn kept_rows<T>(rows: Seq<T>, full: spec_fn(T) -> bool, n: int) -> Seq<T>
    decreases n,
{
    if n <= 0 {
        seq![]
    } else if full(rows[n - 1]) {
        kept_rows(rows, full, n - 1)
    } else {
        kept_rows(rows, full, n - 1).push(rows[n - 1])
    }
}

/// Indices among the first `n` rows that `full` accepts, in increasing order.
pub open spec fn full_row_indices<T>(rows: Seq<T>, full: spec_fn(T) -> bool, n: int) -> Seq<usize>
    decreases n,
{
    if n <= 0 {
        seq![]
    } else if full(rows[n - 1]) {
        full_row_indices(rows, full, n - 1).push((n - 1) as usize)
    } else {
        full_row_indices(rows, full, n - 1)
    }
}

pub proof fn lemma_kept_full_len<T>(rows: Seq<T>, full: spec_fn(T) -> bool, n: int)
    requires
        n >= 0,
    ensures
        kept_rows(rows, full, n).len() + full_row_indices(rows, full, n).len() == n,
    decreases n,
{
    if n > 0 {
        lemma_kept_full_len(rows, full, n - 1);
    }
}

/// Points awarded for clearing `n` lines at once.
pub open spec fn clear_score(n: int) -> int {
    if n == 1 {
        300
    } else if n == 2 {
        800
    } else if n == 3 {
        1800
    } else {
        n * 500
    }
}

} // verus!

verus! {

/// Column height facts: at most the field height, the top cell of a
/// non-empty column is occupied, and nothing above it is.
pub proof fn lemma_height_below(g: Seq<Seq<bool>>, x: int, n: int)
    requires
        0 <= n,
    ensures
        height_below(g, x, n) <= n,
        height_below(g, x, n) > 0 ==> filled(g, x, height_below(g, x, n) - 1),
        forall|y: int| height_below(g, x, n) <= y < n ==> !#[trigger] filled(g, x, y),
        forall|y: int| 0 <= y < n && #[trigger] filled(g, x, y) ==> y < height_below(g, x, n),
    decreases n,
{
    if n > 0 {
        lemma_height_below(g, x, n - 1);
    }
}

/// Number of empty cells of column `x` among rows `lo..hi`.
pub open spec fn empty_count(g: Seq<Seq<bool>>, x: int, lo: int, hi: int) -> nat
    decreases hi - lo,
{
    if lo >= hi {
        0
    } else {
        (if filled(g, x, lo) { 0nat } else { 1nat }) + empty_count(g, x, lo + 1, hi)
    }
}

/// Cell `(x, y)` is a hole: empty, with an occupied cell somewhere above it in its column.
pub open spec fn is_hole(g: Seq<Seq<bool>>, x: int, y: int) -> bool {
    0 <= x < TOTAL_GRID_WIDTH && 0 <= y < column_height(g, x) && !filled(g, x, y)
}

/// Number of holes in column `x`.
pub open spec fn column_holes(g: Seq<Seq<bool>>, x: int) -> nat {
    empty_count(g, x, 0, column_height(g, x) as int)
}

/// Number of holes in the first `n` columns.
pub open spec fn holes_upto(g: Seq<Seq<bool>>, n: int) -> nat
    decreases n,
{
    if n <= 0 {
        0
    } else {
        holes_upto(g, n - 1) + column_holes(g, n - 1)
    }
}

/// Number of holes in the field.
pub open spec fn total_holes(g: Seq<Seq<bool>>) -> nat {
    holes_upto(g, TOTAL_GRID_WIDTH as int)
}

pub proof fn lemma_empty_count_bound(g: Seq<Seq<bool>>, x: int, lo: int, hi: int)
    ensures
        empty_count(g, x, lo, hi) <= if lo >= hi { 0 } else { hi - lo },
    decreases hi - lo,
{
    if lo < hi {
        lemma_empty_count_bound(g, x, lo + 1, hi);
    }
}

pub proof fn lemma_holes_upto_bound(g: Seq<Seq<bool>>, n: int)
    requires
        0 <= n,
    ensures
        holes_upto(g, n) <= n * LANE_HEIGHT,
    decreases n,
{
    if n > 0 {
        lemma_holes_upto_bound(g, n - 1);
        lemma_height_below(g, n - 1, LANE_HEIGHT as int);
        lemma_empty_count_bound(g, n - 1, 0, column_height(g, n - 1) as int);
    }
}

} // verus!

verus! {

/// Some column with an occupied cell at row `y` or above has an empty cell below row `y`.
pub open spec fn hole_below_row(g: Seq<Seq<bool>>, y: int) -> bool {
    y != 0 && exists|x: int, uy: int|
        0 <= x < TOTAL_GRID_WIDTH && 0 <= uy < y && !#[trigger] filled(g, x, uy) && exists|ry: int|
            y <= ry < LANE_HEIGHT && #[trigger] filled(g, x, ry)
}

/// Empty cell `(cx, cy)` cannot be filled: it is roofed within two rows and
/// walled in on the left or on the right.
pub open spec fn unreachable_alcove(g: Seq<Seq<bool>>, cx: int, cy: int) -> bool {
    &&& 0 <= cx < TOTAL_GRID_WIDTH
    &&& 0 <= cy < LANE_HEIGHT
    &&& !filled(g, cx, cy)
    &&& exists|ry: int| cy < ry <= cy + 2 && #[trigger] filled(g, cx, ry)
    &&& (cx == 0 || filled(g, cx - 1, cy) || cx + 1 >= TOTAL_GRID_WIDTH || filled(g, cx + 1, cy))
}

/// Height of the wall at column `x`: the column's height, or the full field
/// height outside the field.
pub open spec fn wall_height(g: Seq<Seq<bool>>, x: int) -> int {
    if 0 <= x < TOTAL_GRID_WIDTH {
        column_height(g, x) as int
    } else {
        LANE_HEIGHT as int
    }
}

/// The vertical well at column `x`, as `(x, bottom row, depth)`: the column is
/// below the top, both neighbouring walls rise at least two rows above it, and
/// nothing covers it; its depth is the height of the lower wall above it.
pub open spec fn well_at(g: Seq<Seq<bool>>, x: int) -> Option<(usize, usize, usize)> {
    let h = column_height(g, x) as int;
    let wall = vstd::math::min(wall_height(g, x - 1), wall_height(g, x + 1));
    if h >= LANE_HEIGHT {
        None
    } else if wall >= h + 2 && !(exists|y: int| h <= y < LANE_HEIGHT && #[trigger] filled(g, x, y)) {
        Some((x as usize, h as usize, (wall - h) as usize))
    } else {
        None
    }
}

/// The vertical wells of columns `lo..hi`, left to right.
pub open spec fn wells_in(g: Seq<Seq<bool>>, lo: int, hi: int) -> Seq<(usize, usize, usize)>
    decreases hi - lo,
{
    if hi <= lo {
        seq![]
    } else {
        match well_at(g, hi - 1) {
            Some(w) => wells_in(g, lo, hi - 1).push(w),
            None => wells_in(g, lo, hi - 1),
        }
    }
}

/// Number of occupied cells of row `y` among columns `lo..hi`.
pub open spec fn row_filled_count(g: Seq<Seq<bool>>, y: int, lo: int, hi: int) -> nat
    decreases hi - lo,
{
    if lo >= hi {
        0
    } else {
        (if filled(g, lo, y) { 1nat } else { 0nat }) + row_filled_count(g, y, lo + 1, hi)
    }
}

pub proof fn lemma_row_filled_count_bound(g: Seq<Seq<bool>>, y: int, lo: int, hi: int)
    ensures
        row_filled_count(g, y, lo, hi) <= if lo >= hi { 0 } else { hi - lo },
    decreases hi - lo,
{
    if lo < hi {
        lemma_row_filled_count_bound(g, y, lo + 1, hi);
    }
}

} // verus!

verus! {

/// Lane `lane_id` has a hole in one of its columns.
pub open spec fn lane_has_hole(g: Seq<Seq<bool>>, lane_id: int) -> bool {
    exists|x: int, y: int|
        crate::board::spec_lane_x_range(lane_id).0 <= x <= crate::board::spec_lane_x_range(lane_id).1
            && #[trigger] is_hole(g, x, y)
}

/// Sum of the heights of lane `lane_id`'s three columns.
pub open spec fn lane_height_sum(g: Seq<Seq<bool>>, lane_id: int) -> int {
    let lo = crate::board::spec_lane_x_range(lane_id).0;
    (column_height(g, lo) + column_height(g, lo + 1) + column_height(g, lo + 2)) as int
}

/// Column `x` of lane `lane_id` lies more than one row below the lane's average height.
pub open spec fn sunken_column(g: Seq<Seq<bool>>, lane_id: int, x: int) -> bool {
    3 * column_height(g, x) + 3 < lane_height_sum(g, lane_id)
}

/// Fullest of the first `n` rows, as `(row, occupied cells)`; the lower row wins ties,
/// and an all-empty range gives `(0, 0)`.
pub open spec fn fullest_row_upto(g: Seq<Seq<bool>>, n: int) -> (int, nat)
    decreases n,
{
    if n <= 0 {
        (0, 0)
    } else {
        let prev = fullest_row_upto(g, n - 1);
        let c = row_filled_count(g, n - 1, 0, TOTAL_GRID_WIDTH as int);
        if c > prev.1 {
            (n - 1, c)
        } else {
            prev
        }
    }
}

/// Occupied cells of lane `lane_id` in the fullest of the bottom five rows (0 when those rows are empty).
pub open spec fn lane_fill_at_target(g: Seq<Seq<bool>>, lane_id: int) -> nat {
    let best = fullest_row_upto(g, 5);
    if best.1 == 0 {
        0
    } else {
        row_filled_count(
            g,
            best.0,
            crate::board::spec_lane_x_range(lane_id).0,
            crate::board::spec_lane_x_range(lane_id).1 + 1,
        )
    }
}


/// `r` is the deepest hole of lane `lane_id` in grid `g`: the lowest (then
/// leftmost) hole of the lane, reported as covered; else, with no hole in the
/// lane, its leftmost column lying more than one row below the lane's average
/// height, reported as open at the column's top; else nothing.
pub open spec fn deepest_hole_spec(g: Seq<Seq<bool>>, lane_id: int, r: Option<(usize, usize, bool)>) -> bool {
    let lo = crate::board::spec_lane_x_range(lane_id).0;
    let hi = crate::board::spec_lane_x_range(lane_id).1;
    match r {
        Some((x, y, true)) => {
            &&& lo <= x <= hi
            &&& is_hole(g, x as int, y as int)
            &&& forall|x2: int, y2: int|
                lo <= x2 <= hi && #[trigger] is_hole(g, x2, y2) ==> y <= y2 && (y2 == y ==> x <= x2)
        },
        Some((x, y, false)) => {
            &&& !lane_has_hole(g, lane_id)
            &&& lo <= x <= hi
            &&& y == column_height(g, x as int)
            &&& sunken_column(g, lane_id, x as int)
            &&& forall|x2: int| lo <= x2 < x ==> !#[trigger] sunken_column(g, lane_id, x2)
        },
        None => {
            &&& !lane_has_hole(g, lane_id)
            &&& forall|x2: int| lo <= x2 <= hi ==> !#[trigger] sunken_column(g, lane_id, x2)
        },
    }
}

/// The deepest hole of lane `lane_id` in `g`: the one answer that
/// `deepest_hole_spec` allows.
pub open spec fn deepest_hole_of(g: Seq<Seq<bool>>, lane_id: int) -> Option<(usize, usize, bool)> {
    choose|d: Option<(usize, usize, bool)>| deepest_hole_spec(g, lane_id, d)
}

/// Any answer allowed by `deepest_hole_spec` is `deepest_hole_of`.
pub proof fn lemma_deepest_hole_of(g: Seq<Seq<bool>>, lane_id: int, d: Option<(usize, usize, bool)>)
    requires
        deepest_hole_spec(g, lane_id, d),
    ensures
        deepest_hole_of(g, lane_id) == d,
{
    lemma_deepest_hole_unique(g, lane_id, d, deepest_hole_of(g, lane_id));
}

/// The deepest-hole relation picks at most one answer for a field and lane.
pub proof fn lemma_deepest_hole_unique(
    g: Seq<Seq<bool>>,
    lane_id: int,
    a: Option<(usize, usize, bool)>,
    b: Option<(usize, usize, bool)>,
)
    requires
        deepest_hole_spec(g, lane_id, a),
        deepest_hole_spec(g, lane_id, b),
    ensures
        a == b,
{
    let lo = crate::board::spec_lane_x_range(lane_id).0;
    let hi = crate::board::spec_lane_x_range(lane_id).1;
    match (a, b) {
        (Some((xa, ya, true)), Some((xb, yb, true))) => {
            assert(is_hole(g, xb as int, yb as int));
            assert(is_hole(g, xa as int, ya as int));
        },
        (Some((xa, ya, true)), _) => {
            assert(is_hole(g, xa as int, ya as int));
        },
        (_, Some((xb, yb, true))) => {
            assert(is_hole(g, xb as int, yb as int));
        },
        (Some((xa, _, false)), Some((xb, _, false))) => {
            assert(sunken_column(g, lane_id, xa as int));
            assert(sunken_column(g, lane_id, xb as int));
        },
        (Some((xa, _, false)), None) => {
            assert(sunken_column(g, lane_id, xa as int));
        },
        (None, Some((xb, _, false))) => {
            assert(sunken_column(g, lane_id, xb as int));
        },
        _ => {},
    }
}

/// A range of columns holds at most one well per column.
pub proof fn lemma_wells_in_len(g: Seq<Seq<bool>>, lo: int, hi: int)
    ensures
        wells_in(g, lo, hi).len() <= if hi <= lo { 0 } else { hi - lo },
    decreases hi - lo,
{
    if hi > lo {
        lemma_wells_in_len(g, lo, hi - 1);
    }
}

} // verus!
