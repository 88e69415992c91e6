//! The playfield: lane geometry, the full board with cell owners, and its
//! bitboard twin used by the search.

pub mod model;
pub mod rows;
pub mod grid;
pub mod compact;
pub mod collision;
pub mod line_clear;
pub mod analysis;
pub mod render;

use vstd::prelude::*;
use crate::config::{LANE_WIDTH, TOTAL_GRID_WIDTH};

pub use grid::GlobalBoard;
pub use compact::CompactBoard;

verus! {

/// Column `x` is one of the separator columns between two lanes.
pub open spec fn spec_is_border_column(x: int) -> bool {
    0 <= x < TOTAL_GRID_WIDTH && (x + 1) % (LANE_WIDTH + 1) as int == 0
}

/// First and last column of lane `lane_id`.
pub open spec fn spec_lane_x_range(lane_id: int) -> (int, int) {
    (lane_id * (LANE_WIDTH + 1) as int, lane_id * (LANE_WIDTH + 1) as int + LANE_WIDTH - 1)
}

/// Whether column `x` is a separator column (columns past the right edge are not).
pub fn is_border_column(x: usize) -> (r: bool)
    ensures
        r == spec_is_border_column(x as int),
{
    if x >= TOTAL_GRID_WIDTH {
        return false;
    }
    (x + 1) % (LANE_WIDTH + 1) == 0
}

/// Inclusive column range `(min_x, max_x)` of lane `lane_id`.
pub fn lane_x_range(lane_id: usize) -> (r: (usize, usize))
    requires
        lane_id * (LANE_WIDTH + 1) + LANE_WIDTH - 1 <= usize::MAX,
    ensures
        r.0 == spec_lane_x_range(lane_id as int).0,
        r.1 == spec_lane_x_range(lane_id as int).1,
{
    let start_x = lane_id * (LANE_WIDTH + 1);
    (start_x, start_x + (LANE_WIDTH - 1))
}

impl GlobalBoard {
    /// The bitboard with exactly the occupied cells of this field.
    pub fn to_compact(&self) -> (r: CompactBoard)
        ensures
            r.grid() == self.grid(),
            r.words() == rows::grid_words(self.grid()),
            forall|y: int, x: int|
                0 <= y < crate::config::LANE_HEIGHT && TOTAL_GRID_WIDTH <= x < 32 ==> !#[trigger] compact::has_bit(r.rows[y], x),
    {
        let mut rows = [0u32; crate::config::LANE_HEIGHT];
        let mut y: usize = 0;
        while y < crate::config::LANE_HEIGHT
            invariant
                0 <= y <= crate::config::LANE_HEIGHT,
                forall|yy: int, x: int|
                    0 <= yy < y && 0 <= x < 32 ==> #[trigger] compact::has_bit(rows[yy], x) == (x < TOTAL_GRID_WIDTH
                        && self.cells[yy][x] is Some),
            decreases crate::config::LANE_HEIGHT - y,
        {
            let mut row: u32 = 0;
            let mut x: usize = 0;
            proof {
                assert forall|xx: int| 0 <= xx < 32 implies !#[trigger] compact::has_bit(row, xx) by {
                    compact::lemma_zero_bits(xx as u32);
                }
            }
            while x < TOTAL_GRID_WIDTH
                invariant
                    0 <= y < crate::config::LANE_HEIGHT,
                    0 <= x <= TOTAL_GRID_WIDTH,
                    forall|xx: int| 0 <= xx < 32 ==> #[trigger] compact::has_bit(row, xx) == (xx < x && self.cells[y as int][xx] is Some),
                decreases TOTAL_GRID_WIDTH - x,
            {
                proof {
                    assert forall|xx: int| 0 <= xx < 32 implies #[trigger] compact::has_bit(row | (1u32 << (x as u32)), xx) == (xx == x
                        || compact::has_bit(row, xx)) by {
                        compact::lemma_set_bit(row, xx as u32, x as u32);
                    }
                }
                if self.cells[y][x].is_some() {
                    row = row | (1u32 << (x as u32));
                }
                x += 1;
            }
            rows[y] = row;
            y += 1;
        }
        let r = CompactBoard { rows };
        assert(r.grid() =~= self.grid()) by {
            assert forall|yy: int| 0 <= yy < crate::config::LANE_HEIGHT implies #[trigger] r.grid()[yy] =~= self.grid()[yy] by {}
        }
        assert(r.words() =~= rows::grid_words(self.grid())) by {
            assert forall|yy: int| 0 <= yy < crate::config::LANE_HEIGHT implies #[trigger] r.words()[yy] =~= rows::grid_words(
                self.grid(),
            )[yy] by {}
        }
        r
    }
}

} // verus!
