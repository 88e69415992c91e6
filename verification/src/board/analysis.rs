//! Board analysis shared by both board representations: column heights,
//! holes, vertical wells and unreachable alcoves.

use vstd::prelude::*;
use super::compact::{has_bit, CompactBoard};
use super::grid::GlobalBoard;
use super::model::{
    column_height, column_holes, empty_count, filled, height_below, hole_below_row, holes_upto, is_hole,
    lemma_height_below, lemma_holes_upto_bound, total_holes, unreachable_alcove, wall_height, well_at, wells_in,
    lane_has_hole, lane_height_sum, sunken_column, fullest_row_upto, lane_fill_at_target, row_filled_count,
    lemma_row_filled_count_bound, deepest_hole_spec, deepest_hole_of, lemma_deepest_hole_of,
};
use super::{lane_x_range, spec_lane_x_range};
use crate::config::LANE_COUNT;
use crate::config::{LANE_HEIGHT, TOTAL_GRID_WIDTH};

verus! {

/// Read access to a board's occupancy.
pub trait Occupancy {
    /// The board's occupancy grid.
    spec fn occupancy(&self) -> Seq<Seq<bool>>;

    /// The occupancy grid has the field's dimensions.
    proof fn lemma_occupancy_dims(&self)
        ensures
            self.occupancy().len() == LANE_HEIGHT,
            forall|y: int| 0 <= y < LANE_HEIGHT ==> #[trigger] self.occupancy()[y].len() == TOTAL_GRID_WIDTH,
    ;

    /// Whether cell `(x, y)` is occupied.
    fn cell_at(&self, x: usize, y: usize) -> (r: bool)
        requires
            x < TOTAL_GRID_WIDTH,
            y < LANE_HEIGHT,
        ensures
            r == filled(self.occupancy(), x as int, y as int),
    ;
}

impl Occupancy for GlobalBoard {
    open spec fn occupancy(&self) -> Seq<Seq<bool>> {
        self.grid()
    }

    proof fn lemma_occupancy_dims(&self) {
    }

    fn cell_at(&self, x: usize, y: usize) -> (r: bool) {
        self.cells[y][x].is_some()
    }
}

impl Occupancy for CompactBoard {
    open spec fn occupancy(&self) -> Seq<Seq<bool>> {
        self.grid()
    }

    proof fn lemma_occupancy_dims(&self) {
    }

    fn cell_at(&self, x: usize, y: usize) -> (r: bool) {
        (self.rows[y] & (1u32 << (x as u32))) != 0
    }
}

/// Height of column `x`.
pub fn column_height_of<B: Occupancy>(b: &B, x: usize) -> (h: usize)
    requires
        x < TOTAL_GRID_WIDTH,
    ensures
        h == column_height(b.occupancy(), x as int),
        h <= LANE_HEIGHT,
{
    let ghost g = b.occupancy();
    proof {
        lemma_height_below(g, x as int, LANE_HEIGHT as int);
    }
    let mut y: usize = LANE_HEIGHT;
    while y > 0
        invariant
            0 <= y <= LANE_HEIGHT,
            x < TOTAL_GRID_WIDTH,
            g == b.occupancy(),
            height_below(g, x as int, y as int) == column_height(g, x as int),
        decreases y,
    {
        if b.cell_at(x, y - 1) {
            return y;
        }
        y -= 1;
    }
    0
}

/// Heights of all columns.
pub fn column_heights_of<B: Occupancy>(b: &B) -> (r: [usize; TOTAL_GRID_WIDTH])
    ensures
        forall|x: int| 0 <= x < TOTAL_GRID_WIDTH ==> #[trigger] r[x] == column_height(b.occupancy(), x),
        forall|x: int| 0 <= x < TOTAL_GRID_WIDTH ==> #[trigger] r[x] <= LANE_HEIGHT,
{
    let mut heights = [0usize; TOTAL_GRID_WIDTH];
    let mut x: usize = 0;
    while x < TOTAL_GRID_WIDTH
        invariant
            0 <= x <= TOTAL_GRID_WIDTH,
            forall|k: int| 0 <= k < x ==> #[trigger] heights[k] == column_height(b.occupancy(), k),
            forall|k: int| 0 <= k < x ==> #[trigger] heights[k] <= LANE_HEIGHT,
        decreases TOTAL_GRID_WIDTH - x,
    {
        heights[x] = column_height_of(b, x);
        x += 1;
    }
    heights
}

/// Number of holes in column `x`.
fn column_holes_of<B: Occupancy>(b: &B, x: usize) -> (n: usize)
    requires
        x < TOTAL_GRID_WIDTH,
    ensures
        n == column_holes(b.occupancy(), x as int),
{
    let ghost g = b.occupancy();
    let ghost h = column_height(g, x as int) as int;
    proof {
        lemma_height_below(g, x as int, LANE_HEIGHT as int);
    }
    let mut holes: usize = 0;
    let mut block_found = false;
    let mut y: usize = LANE_HEIGHT;
    while y > 0
        invariant
            0 <= y <= LANE_HEIGHT,
            x < TOTAL_GRID_WIDTH,
            g == b.occupancy(),
            h == column_height(g, x as int),
            0 <= h <= LANE_HEIGHT,
            h > 0 ==> filled(g, x as int, h - 1),
            forall|yy: int| h <= yy < LANE_HEIGHT ==> !#[trigger] filled(g, x as int, yy),
            block_found == (h > y),
            holes == empty_count(g, x as int, y as int, h),
            holes <= LANE_HEIGHT - y,
        decreases y,
    {
        let yy = y - 1;
        if b.cell_at(x, yy) {
            block_found = true;
        } else if block_found {
            holes += 1;
        }
        y = yy;
    }
    holes
}

/// Number of holes in the field.
pub fn count_holes_of<B: Occupancy>(b: &B) -> (n: usize)
    ensures
        n == total_holes(b.occupancy()),
{
    let mut holes: usize = 0;
    let mut x: usize = 0;
    while x < TOTAL_GRID_WIDTH
        invariant
            0 <= x <= TOTAL_GRID_WIDTH,
            holes == holes_upto(b.occupancy(), x as int),
        decreases TOTAL_GRID_WIDTH - x,
    {
        proof {
            lemma_holes_upto_bound(b.occupancy(), x + 1);
        }
        holes += column_holes_of(b, x);
        x += 1;
    }
    holes
}

/// Highest hole of column `x`, if any.
fn column_top_hole<B: Occupancy>(b: &B, x: usize) -> (r: Option<usize>)
    requires
        x < TOTAL_GRID_WIDTH,
    ensures
        match r {
            None => forall|y: int| !#[trigger] is_hole(b.occupancy(), x as int, y),
            Some(m) => is_hole(b.occupancy(), x as int, m as int) && forall|y: int|
                #[trigger] is_hole(b.occupancy(), x as int, y) ==> y <= m,
        },
{
    let ghost g = b.occupancy();
    let ghost h = column_height(g, x as int) as int;
    proof {
        lemma_height_below(g, x as int, LANE_HEIGHT as int);
    }
    let mut roof_found = false;
    let mut y: usize = LANE_HEIGHT;
    while y > 0
        invariant
            0 <= y <= LANE_HEIGHT,
            x < TOTAL_GRID_WIDTH,
            g == b.occupancy(),
            h == column_height(g, x as int),
            0 <= h <= LANE_HEIGHT,
            h > 0 ==> filled(g, x as int, h - 1),
            forall|yy: int| h <= yy < LANE_HEIGHT ==> !#[trigger] filled(g, x as int, yy),
            roof_found == (h > y),
            forall|yy: int| y <= yy ==> !#[trigger] is_hole(g, x as int, yy),
        decreases y,
    {
        let yy = y - 1;
        if b.cell_at(x, yy) {
            roof_found = true;
        } else if roof_found {
            return Some(yy);
        }
        y = yy;
    }
    None
}

/// Lowest hole of column `x`, if any.
fn column_bottom_hole<B: Occupancy>(b: &B, x: usize) -> (r: Option<usize>)
    requires
        x < TOTAL_GRID_WIDTH,
    ensures
        match r {
            None => forall|y: int| !#[trigger] is_hole(b.occupancy(), x as int, y),
            Some(m) => is_hole(b.occupancy(), x as int, m as int) && forall|y: int|
                #[trigger] is_hole(b.occupancy(), x as int, y) ==> m <= y,
        },
{
    let ghost g = b.occupancy();
    let ghost h = column_height(g, x as int) as int;
    proof {
        lemma_height_below(g, x as int, LANE_HEIGHT as int);
    }
    let mut roof_found = false;
    let mut found: Option<usize> = None;
    let mut y: usize = LANE_HEIGHT;
    while y > 0
        invariant
            0 <= y <= LANE_HEIGHT,
            x < TOTAL_GRID_WIDTH,
            g == b.occupancy(),
            h == column_height(g, x as int),
            0 <= h <= LANE_HEIGHT,
            h > 0 ==> filled(g, x as int, h - 1),
            forall|yy: int| h <= yy < LANE_HEIGHT ==> !#[trigger] filled(g, x as int, yy),
            roof_found == (h > y),
            match found {
                None => forall|yy: int| y <= yy ==> !#[trigger] is_hole(g, x as int, yy),
                Some(m) => y <= m && is_hole(g, x as int, m as int) && forall|yy: int|
                    y <= yy && #[trigger] is_hole(g, x as int, yy) ==> m <= yy,
            },
        decreases y,
    {
        let yy = y - 1;
        if b.cell_at(x, yy) {
            roof_found = true;
        } else if roof_found {
            found = Some(yy);
        }
        y = yy;
    }
    found
}

/// Row of the highest hole in the field, if any.
pub fn highest_hole_y_of<B: Occupancy>(b: &B) -> (r: Option<usize>)
    ensures
        match r {
            None => forall|x: int, y: int| !#[trigger] is_hole(b.occupancy(), x, y),
            Some(m) => (exists|x: int| #[trigger] is_hole(b.occupancy(), x, m as int)) && forall|x: int, y: int|
                #[trigger] is_hole(b.occupancy(), x, y) ==> y <= m,
        },
{
    let ghost g = b.occupancy();
    let mut max_y: Option<usize> = None;
    let mut x: usize = 0;
    while x < TOTAL_GRID_WIDTH
        invariant
            0 <= x <= TOTAL_GRID_WIDTH,
            g == b.occupancy(),
            match max_y {
                None => forall|xx: int, y: int| xx < x ==> !#[trigger] is_hole(g, xx, y),
                Some(m) => (exists|xx: int| #[trigger] is_hole(g, xx, m as int)) && forall|xx: int, y: int|
                    xx < x && #[trigger] is_hole(g, xx, y) ==> y <= m,
            },
        decreases TOTAL_GRID_WIDTH - x,
    {
        match column_top_hole(b, x) {
            None => {},
            Some(y) => {
                max_y = match max_y {
                    None => Some(y),
                    Some(prev) => if prev < y { Some(y) } else { Some(prev) },
                };
            },
        }
        x += 1;
    }
    max_y
}

/// Row of the lowest hole in the field, if any.
pub fn lowest_hole_y_of<B: Occupancy>(b: &B) -> (r: Option<usize>)
    ensures
        match r {
            None => forall|x: int, y: int| !#[trigger] is_hole(b.occupancy(), x, y),
            Some(m) => (exists|x: int| #[trigger] is_hole(b.occupancy(), x, m as int)) && forall|x: int, y: int|
                #[trigger] is_hole(b.occupancy(), x, y) ==> m <= y,
        },
{
    let ghost g = b.occupancy();
    let mut min_y: Option<usize> = None;
    let mut x: usize = 0;
    while x < TOTAL_GRID_WIDTH
        invariant
            0 <= x <= TOTAL_GRID_WIDTH,
            g == b.occupancy(),
            match min_y {
                None => forall|xx: int, y: int| xx < x ==> !#[trigger] is_hole(g, xx, y),
                Some(m) => (exists|xx: int| #[trigger] is_hole(g, xx, m as int)) && forall|xx: int, y: int|
                    xx < x && #[trigger] is_hole(g, xx, y) ==> m <= y,
            },
        decreases TOTAL_GRID_WIDTH - x,
    {
        match column_bottom_hole(b, x) {
            None => {},
            Some(y) => {
                min_y = match min_y {
                    None => Some(y),
                    Some(prev) => if y < prev { Some(y) } else { Some(prev) },
                };
            },
        }
        x += 1;
    }
    min_y
}

/// Whether column `x` has an occupied cell in rows `lo..LANE_HEIGHT`.
pub(crate) fn occupied_from<B: Occupancy>(b: &B, x: usize, lo: usize) -> (r: bool)
    requires
        x < TOTAL_GRID_WIDTH,
    ensures
        r == exists|y: int| lo <= y < LANE_HEIGHT && #[trigger] filled(b.occupancy(), x as int, y),
{
    let mut y = lo;
    while y < LANE_HEIGHT
        invariant
            lo <= y,
            x < TOTAL_GRID_WIDTH,
            forall|yy: int| lo <= yy < y && yy < LANE_HEIGHT ==> !#[trigger] filled(b.occupancy(), x as int, yy),
        decreases LANE_HEIGHT - y,
    {
        if b.cell_at(x, y) {
            return true;
        }
        y += 1;
    }
    false
}

/// Whether some column holding a block at row `y` or above has an empty cell below `y`.
pub fn has_hole_below_in_row_of<B: Occupancy>(b: &B, y: usize) -> (r: bool)
    ensures
        r == hole_below_row(b.occupancy(), y as int),
{
    let ghost g = b.occupancy();
    if y == 0 {
        return false;
    }
    let mut x: usize = 0;
    while x < TOTAL_GRID_WIDTH
        invariant
            0 <= x <= TOTAL_GRID_WIDTH,
            y > 0,
            g == b.occupancy(),
            forall|xx: int, uy: int|
                0 <= xx < x && 0 <= uy < y && !#[trigger] filled(g, xx, uy) ==> !exists|ry: int|
                    y <= ry < LANE_HEIGHT && #[trigger] filled(g, xx, ry),
        decreases TOTAL_GRID_WIDTH - x,
    {
        let has_roof = occupied_from(b, x, y);
        if has_roof {
            assert(y < LANE_HEIGHT);
            let mut uy: usize = 0;
            while uy < y
                invariant
                    0 <= uy <= y,
                    y < LANE_HEIGHT,
                    x < TOTAL_GRID_WIDTH,
                    g == b.occupancy(),
                    exists|ry: int| y <= ry < LANE_HEIGHT && #[trigger] filled(g, x as int, ry),
                    forall|k: int| 0 <= k < uy ==> #[trigger] filled(g, x as int, k),
                decreases y - uy,
            {
                if !b.cell_at(x, uy) {
                    proof {
                        let ry = choose|ry: int| y <= ry < LANE_HEIGHT && #[trigger] filled(g, x as int, ry);
                        assert(0 <= x < TOTAL_GRID_WIDTH && 0 <= uy < y && !filled(g, x as int, uy as int) && y <= ry
                            < LANE_HEIGHT && filled(g, x as int, ry));
                        assert(hole_below_row(g, y as int));
                    }
                    return true;
                }
                uy += 1;
            }
        }
        x += 1;
    }
    false
}

/// Whether the empty cell `(cx, cy)` is roofed within two rows and walled in on one side.
pub fn is_unreachable_alcove_of<B: Occupancy>(b: &B, cx: usize, cy: usize) -> (r: bool)
    ensures
        r == unreachable_alcove(b.occupancy(), cx as int, cy as int),
{
    let ghost g = b.occupancy();
    proof {
        b.lemma_occupancy_dims();
    }
    if cx >= TOTAL_GRID_WIDTH || cy >= LANE_HEIGHT {
        return false;
    }
    if b.cell_at(cx, cy) {
        return false;
    }
    // First occupied row above the cell.
    let mut roof: Option<usize> = None;
    let mut y = cy + 1;
    while y < LANE_HEIGHT
        invariant_except_break
            roof is None,
        invariant
            cy + 1 <= y,
            cx < TOTAL_GRID_WIDTH,
            cy < LANE_HEIGHT,
            g == b.occupancy(),
            g.len() == LANE_HEIGHT,
            forall|yy: int| cy < yy < y && yy < LANE_HEIGHT ==> !#[trigger] filled(g, cx as int, yy),
        ensures
            match roof {
                None => forall|yy: int| cy < yy ==> !#[trigger] filled(g, cx as int, yy),
                Some(ry) => cy < ry < LANE_HEIGHT && filled(g, cx as int, ry as int) && forall|yy: int|
                    cy < yy < ry ==> !#[trigger] filled(g, cx as int, yy),
            },
        decreases LANE_HEIGHT - y,
    {
        if b.cell_at(cx, y) {
            roof = Some(y);
            break;
        }
        y += 1;
    }
    if let Some(roof_y) = roof {
        let space_height = roof_y - cy;
        if space_height <= 2 {
            let left_inaccessible = if cx == 0 {
                true
            } else {
                b.cell_at(cx - 1, cy)
            };
            let right_inaccessible = if cx + 1 >= TOTAL_GRID_WIDTH {
                true
            } else {
                b.cell_at(cx + 1, cy)
            };
            if left_inaccessible || right_inaccessible {
                assert(filled(g, cx as int, roof_y as int));
                return true;
            }
        }
    }
    false
}

/// Vertical well at column `x`, if any.
fn well_at_of<B: Occupancy>(b: &B, heights: &[usize; TOTAL_GRID_WIDTH], x: usize) -> (r: Option<(usize, usize, usize)>)
    requires
        x < TOTAL_GRID_WIDTH,
        forall|k: int| 0 <= k < TOTAL_GRID_WIDTH ==> #[trigger] heights[k] == column_height(b.occupancy(), k),
        forall|k: int| 0 <= k < TOTAL_GRID_WIDTH ==> #[trigger] heights[k] <= LANE_HEIGHT,
    ensures
        r == well_at(b.occupancy(), x as int),
{
    let h = heights[x];
    if h >= LANE_HEIGHT {
        return None;
    }
    let left_h = if x == 0 { LANE_HEIGHT } else { heights[x - 1] };
    let right_h = if x + 1 >= TOTAL_GRID_WIDTH { LANE_HEIGHT } else { heights[x + 1] };
    let wall_h = if left_h < right_h { left_h } else { right_h };
    assert(wall_h == vstd::math::min(wall_height(b.occupancy(), x - 1), wall_height(b.occupancy(), x + 1)));
    if wall_h >= h + 2 {
        let depth = wall_h - h;
        let has_roof = occupied_from(b, x, h);
        if !has_roof {
            return Some((x, h, depth));
        }
    }
    None
}

/// Vertical wells of columns `lo..=hi`, left to right.
pub fn find_vertical_wells_in<B: Occupancy>(b: &B, lo: usize, hi: usize) -> (r: Vec<(usize, usize, usize)>)
    requires
        hi < TOTAL_GRID_WIDTH,
    ensures
        r@ == wells_in(b.occupancy(), lo as int, hi + 1),
{
    let heights = column_heights_of(b);
    let mut wells: Vec<(usize, usize, usize)> = Vec::new();
    if lo > hi {
        return wells;
    }
    let mut x = lo;
    while x <= hi
        invariant
            lo <= x <= hi + 1,
            hi < TOTAL_GRID_WIDTH,
            forall|k: int| 0 <= k < TOTAL_GRID_WIDTH ==> #[trigger] heights[k] == column_height(b.occupancy(), k),
            forall|k: int| 0 <= k < TOTAL_GRID_WIDTH ==> #[trigger] heights[k] <= LANE_HEIGHT,
            wells@ == wells_in(b.occupancy(), lo as int, x as int),
        decreases hi + 1 - x,
    {
        match well_at_of(b, &heights, x) {
            Some(w) => wells.push(w),
            None => {},
        }
        x += 1;
    }
    wells
}

/// Deepest hole of lane `lane_id`, as `(x, y, true)`: the lowest hole of the
/// lane's columns, the leftmost on ties. Without holes, the leftmost column
/// lying more than one row below the lane's average height, as
/// `(x, height, false)`; otherwise `None`.
pub fn find_lane_deepest_hole_of<B: Occupancy>(b: &B, lane_id: usize) -> (r: Option<(usize, usize, bool)>)
    requires
        lane_id < LANE_COUNT,
    ensures
        ({
            let g = b.occupancy();
            let lo = spec_lane_x_range(lane_id as int).0;
            let hi = spec_lane_x_range(lane_id as int).1;
            match r {
                Some((x, y, true)) => {
                    &&& lo <= x <= hi
                    &&& is_hole(g, x as int, y as int)
                    &&& forall|x2: int, y2: int|
                        lo <= x2 <= hi && #[trigger] is_hole(g, x2, y2) ==> y <= y2 && (y2 == y ==> x <= x2)
                },
                Some((x, y, false)) => {
                    &&& !lane_has_hole(g, lane_id as int)
                    &&& lo <= x <= hi
                    &&& y == column_height(g, x as int)
                    &&& sunken_column(g, lane_id as int, x as int)
                    &&& forall|x2: int| lo <= x2 < x ==> !#[trigger] sunken_column(g, lane_id as int, x2)
                },
                None => {
                    &&& !lane_has_hole(g, lane_id as int)
                    &&& forall|x2: int| lo <= x2 <= hi ==> !#[trigger] sunken_column(g, lane_id as int, x2)
                },
            }
        }),
{
    let ghost g = b.occupancy();
    let (min_x, max_x) = lane_x_range(lane_id);
    let mut deepest: Option<(usize, usize)> = None;
    let mut x = min_x;
    while x <= max_x
        invariant
            g == b.occupancy(),
            lane_id < LANE_COUNT,
            min_x == spec_lane_x_range(lane_id as int).0,
            max_x == spec_lane_x_range(lane_id as int).1,
            min_x <= x <= max_x + 1,
            match deepest {
                None => forall|x2: int, y2: int| min_x <= x2 < x ==> !#[trigger] is_hole(g, x2, y2),
                Some((dx, dy)) => {
                    &&& min_x <= dx < x
                    &&& is_hole(g, dx as int, dy as int)
                    &&& forall|x2: int, y2: int|
                        min_x <= x2 < x && #[trigger] is_hole(g, x2, y2) ==> dy <= y2 && (y2 == dy ==> dx <= x2)
                },
            },
        decreases max_x + 1 - x,
    {
        match column_bottom_hole(b, x) {
            None => {},
            Some(y) => {
                match deepest {
                    None => {
                        deepest = Some((x, y));
                    },
                    Some((_, prev_y)) => {
                        if y < prev_y {
                            deepest = Some((x, y));
                        }
                    },
                }
            },
        }
        x += 1;
    }
    match deepest {
        Some((dx, dy)) => {
            return Some((dx, dy, true));
        },
        None => {},
    }
    assert(!lane_has_hole(g, lane_id as int));
    let heights = column_heights_of(b);
    let sum = heights[min_x] + heights[min_x + 1] + heights[max_x];
    assert(sum == lane_height_sum(g, lane_id as int));
    let mut x = min_x;
    while x <= max_x
        invariant
            g == b.occupancy(),
            lane_id < LANE_COUNT,
            min_x == spec_lane_x_range(lane_id as int).0,
            max_x == spec_lane_x_range(lane_id as int).1,
            min_x <= x <= max_x + 1,
            sum == lane_height_sum(g, lane_id as int),
            !lane_has_hole(g, lane_id as int),
            forall|k: int| 0 <= k < TOTAL_GRID_WIDTH ==> #[trigger] heights[k] == column_height(g, k),
            forall|k: int| 0 <= k < TOTAL_GRID_WIDTH ==> #[trigger] heights[k] <= LANE_HEIGHT,
            forall|x2: int| min_x <= x2 < x ==> !#[trigger] sunken_column(g, lane_id as int, x2),
        decreases max_x + 1 - x,
    {
        if 3 * heights[x] + 3 < sum {
            return Some((x, heights[x], false));
        }
        x += 1;
    }
    None
}

/// Number of occupied cells of row `y` among columns `lo..hi`.
fn row_count_of<B: Occupancy>(b: &B, y: usize, lo: usize, hi: usize) -> (n: usize)
    requires
        y < LANE_HEIGHT,
        lo <= hi <= TOTAL_GRID_WIDTH,
    ensures
        n == row_filled_count(b.occupancy(), y as int, lo as int, hi as int),
{
    let ghost g = b.occupancy();
    let mut n: usize = 0;
    let mut x = hi;
    while x > lo
        invariant
            lo <= x <= hi,
            hi <= TOTAL_GRID_WIDTH,
            y < LANE_HEIGHT,
            g == b.occupancy(),
            n == row_filled_count(g, y as int, x as int, hi as int),
            n <= hi - x,
        decreases x,
    {
        let xx = x - 1;
        if b.cell_at(xx, y) {
            n += 1;
        }
        x = xx;
    }
    n
}

/// Occupied cells of lane `lane_id` in the fullest of the bottom five rows
/// (the lower row on ties), or 0 when those rows are empty.
pub fn lane_fill_count_of<B: Occupancy>(b: &B, lane_id: usize) -> (n: usize)
    requires
        lane_id < LANE_COUNT,
    ensures
        n == lane_fill_at_target(b.occupancy(), lane_id as int),
        n <= 3,
{
    let ghost g = b.occupancy();
    let (min_x, max_x) = lane_x_range(lane_id);
    let mut best_target_y: usize = 0;
    let mut max_overall_filled: usize = 0;
    let mut y: usize = 0;
    while y < 5
        invariant
            0 <= y <= 5,
            g == b.occupancy(),
            fullest_row_upto(g, y as int) == (best_target_y as int, max_overall_filled as nat),
            best_target_y < 5,
        decreases 5 - y,
    {
        let filled_count = row_count_of(b, y, 0, TOTAL_GRID_WIDTH);
        if filled_count > max_overall_filled {
            max_overall_filled = filled_count;
            best_target_y = y;
        }
        y += 1;
    }
    if max_overall_filled == 0 {
        return 0;
    }
    proof {
        lemma_row_filled_count_bound(g, best_target_y as int, min_x as int, max_x + 1);
    }
    row_count_of(b, best_target_y, min_x, max_x + 1)
}

impl GlobalBoard {
    /// Height of every column: one more than its highest occupied row, or 0.
    pub fn column_heights(&self) -> (r: [usize; TOTAL_GRID_WIDTH])
        ensures
            forall|x: int| 0 <= x < TOTAL_GRID_WIDTH ==> #[trigger] r[x] == column_height(self.grid(), x),
    {
        column_heights_of(self)
    }

    /// Number of holes: empty cells below the top occupied cell of their column.
    pub fn count_holes(&self) -> (r: usize)
        ensures
            r == total_holes(self.grid()),
    {
        count_holes_of(self)
    }

    /// Row of the highest hole in the field, if any.
    pub fn highest_hole_y(&self) -> (r: Option<usize>)
        ensures
            match r {
                None => forall|x: int, y: int| !#[trigger] is_hole(self.grid(), x, y),
                Some(m) => (exists|x: int| #[trigger] is_hole(self.grid(), x, m as int)) && forall|x: int, y: int|
                    #[trigger] is_hole(self.grid(), x, y) ==> y <= m,
            },
    {
        let r = highest_hole_y_of(self);
        proof {
            assert(self.occupancy() == self.grid());
            if r is None {
                assert forall|x: int, y: int| !#[trigger] is_hole(self.grid(), x, y) by {
                    assert(!is_hole(self.occupancy(), x, y));
                }
            }
        }
        r
    }

    /// Whether clearing row `y` would expose a hole: some column occupied at
    /// row `y` or above has an empty cell below `y`.
    pub fn has_hole_below_in_row(&self, y: usize) -> (r: bool)
        ensures
            r == hole_below_row(self.grid(), y as int),
    {
        has_hole_below_in_row_of(self, y)
    }

    /// Row of the lowest hole in the field, if any.
    pub fn lowest_hole_y(&self) -> (r: Option<usize>)
        ensures
            match r {
                None => forall|x: int, y: int| !#[trigger] is_hole(self.grid(), x, y),
                Some(m) => (exists|x: int| #[trigger] is_hole(self.grid(), x, m as int)) && forall|x: int, y: int|
                    #[trigger] is_hole(self.grid(), x, y) ==> m <= y,
            },
    {
        let r = lowest_hole_y_of(self);
        proof {
            assert(self.occupancy() == self.grid());
            if r is None {
                assert forall|x: int, y: int| !#[trigger] is_hole(self.grid(), x, y) by {
                    assert(!is_hole(self.occupancy(), x, y));
                }
            }
        }
        r
    }

    /// Vertical wells of the whole field, left to right, as `(x, bottom row, depth)`.
    pub fn find_all_vertical_wells(&self) -> (r: Vec<(usize, usize, usize)>)
        ensures
            r@ == wells_in(self.grid(), 0, TOTAL_GRID_WIDTH as int),
    {
        find_vertical_wells_in(self, 0, TOTAL_GRID_WIDTH - 1)
    }

    /// Vertical wells in the columns of lane `lane_id`, left to right.
    pub fn find_lane_vertical_wells(&self, lane_id: usize) -> (r: Vec<(usize, usize, usize)>)
        requires
            lane_id < LANE_COUNT,
        ensures
            r@ == wells_in(self.grid(), spec_lane_x_range(lane_id as int).0, spec_lane_x_range(lane_id as int).1 + 1),
    {
        let (min_x, max_x) = lane_x_range(lane_id);
        find_vertical_wells_in(self, min_x, max_x)
    }

    /// Whether the empty cell `(cx, cy)` cannot be filled: roofed within two
    /// rows and walled in on the left or on the right.
    pub fn is_unreachable_alcove(&self, cx: usize, cy: usize) -> (r: bool)
        ensures
            r == unreachable_alcove(self.grid(), cx as int, cy as int),
    {
        is_unreachable_alcove_of(self, cx, cy)
    }

    /// Deepest hole of lane `lane_id` (see `find_lane_deepest_hole_of`).
    pub fn find_lane_deepest_hole(&self, lane_id: usize) -> (r: Option<(usize, usize, bool)>)
        requires
            lane_id < LANE_COUNT,
        ensures
            deepest_hole_spec(self.grid(), lane_id as int, r),
            r == deepest_hole_of(self.grid(), lane_id as int),
    {
        let r = find_lane_deepest_hole_of(self, lane_id);
        proof {
            lemma_deepest_hole_of(self.grid(), lane_id as int, r);
        }
        r
    }

    /// Occupied cells of lane `lane_id` in the fullest of the bottom five rows
    /// (the lower row on ties), or 0 when those rows are all empty. The lane's
    /// fill ratio at the target line is this count over the lane width.
    pub fn lane_fill_count_at_target_line(&self, lane_id: usize) -> (n: usize)
        requires
            lane_id < LANE_COUNT,
        ensures
            n == lane_fill_at_target(self.grid(), lane_id as int),
            n <= 3,
    {
        lane_fill_count_of(self, lane_id)
    }
}

impl CompactBoard {
    /// Height of every column: one more than its highest occupied row, or 0.
    pub fn column_heights(&self) -> (r: [usize; TOTAL_GRID_WIDTH])
        ensures
            forall|x: int| 0 <= x < TOTAL_GRID_WIDTH ==> #[trigger] r[x] == column_height(self.grid(), x),
    {
        column_heights_of(self)
    }

    /// Number of holes: empty cells below the top occupied cell of their column.
    pub fn count_holes(&self) -> (r: usize)
        ensures
            r == total_holes(self.grid()),
    {
        count_holes_of(self)
    }

    /// Row of the highest hole in the field, if any.
    pub fn highest_hole_y(&self) -> (r: Option<usize>)
        ensures
            match r {
                None => forall|x: int, y: int| !#[trigger] is_hole(self.grid(), x, y),
                Some(m) => (exists|x: int| #[trigger] is_hole(self.grid(), x, m as int)) && forall|x: int, y: int|
                    #[trigger] is_hole(self.grid(), x, y) ==> y <= m,
            },
    {
        let r = highest_hole_y_of(self);
        proof {
            assert(self.occupancy() == self.grid());
            if r is None {
                assert forall|x: int, y: int| !#[trigger] is_hole(self.grid(), x, y) by {
                    assert(!is_hole(self.occupancy(), x, y));
                }
            }
        }
        r
    }

    /// Whether clearing row `y` would expose a hole: some column occupied at
    /// row `y` or above has an empty cell below `y`.
    pub fn has_hole_below_in_row(&self, y: usize) -> (r: bool)
        ensures
            r == hole_below_row(self.grid(), y as int),
    {
        has_hole_below_in_row_of(self, y)
    }

    /// Row of the lowest hole in the field, if any.
    pub fn lowest_hole_y(&self) -> (r: Option<usize>)
        ensures
            match r {
                None => forall|x: int, y: int| !#[trigger] is_hole(self.grid(), x, y),
                Some(m) => (exists|x: int| #[trigger] is_hole(self.grid(), x, m as int)) && forall|x: int, y: int|
                    #[trigger] is_hole(self.grid(), x, y) ==> m <= y,
            },
    {
        let r = lowest_hole_y_of(self);
        proof {
            assert(self.occupancy() == self.grid());
            if r is None {
                assert forall|x: int, y: int| !#[trigger] is_hole(self.grid(), x, y) by {
                    assert(!is_hole(self.occupancy(), x, y));
                }
            }
        }
        r
    }

    /// Vertical wells of the whole field, left to right, as `(x, bottom row, depth)`.
    pub fn find_all_vertical_wells(&self) -> (r: Vec<(usize, usize, usize)>)
        ensures
            r@ == wells_in(self.grid(), 0, TOTAL_GRID_WIDTH as int),
    {
        find_vertical_wells_in(self, 0, TOTAL_GRID_WIDTH - 1)
    }

    /// Vertical wells in the columns of lane `lane_id`, left to right.
    pub fn find_lane_vertical_wells(&self, lane_id: usize) -> (r: Vec<(usize, usize, usize)>)
        requires
            lane_id < LANE_COUNT,
        ensures
            r@ == wells_in(self.grid(), spec_lane_x_range(lane_id as int).0, spec_lane_x_range(lane_id as int).1 + 1),
    {
        let (min_x, max_x) = lane_x_range(lane_id);
        find_vertical_wells_in(self, min_x, max_x)
    }

    /// Whether the empty cell `(cx, cy)` cannot be filled: roofed within two
    /// rows and walled in on the left or on the right.
    pub fn is_unreachable_alcove(&self, cx: usize, cy: usize) -> (r: bool)
        ensures
            r == unreachable_alcove(self.grid(), cx as int, cy as int),
    {
        is_unreachable_alcove_of(self, cx, cy)
    }
}

} // verus!
