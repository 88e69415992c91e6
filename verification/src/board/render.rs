//! Characters of the text snapshot of the field.

use vstd::prelude::*;
use super::analysis::{occupied_from, Occupancy};
use super::grid::GlobalBoard;
use super::model::filled;
use super::{is_border_column, spec_is_border_column};
use crate::config::{LANE_HEIGHT, SPAWN_WALL_MIN_Y, TOTAL_GRID_WIDTH};

verus! {

/// Character of cell `(x, y)` in the snapshot: a separator column shows its
/// wall `|` in the spawn band and `#` or `:` below it; a lane cell shows `#`
/// when occupied, `.` when empty under an occupied cell, and a blank otherwise.
pub open spec fn ascii_glyph(g: Seq<Seq<bool>>, x: int, y: int) -> char {
    if spec_is_border_column(x) {
        if y >= SPAWN_WALL_MIN_Y {
            '|'
        } else if filled(g, x, y) {
            '#'
        } else {
            ':'
        }
    } else if filled(g, x, y) {
        '#'
    } else if exists|ry: int| y < ry < LANE_HEIGHT && #[trigger] filled(g, x, ry) {
        '.'
    } else {
        ' '
    }
}

impl GlobalBoard {
    /// Characters of row `y` of the snapshot, left to right.
    pub fn ascii_row(&self, y: usize) -> (r: Vec<char>)
        requires
            y < LANE_HEIGHT,
        ensures
            r@.len() == TOTAL_GRID_WIDTH,
            forall|x: int| 0 <= x < TOTAL_GRID_WIDTH ==> #[trigger] r@[x] == ascii_glyph(self.grid(), x, y as int),
    {
        let mut out: Vec<char> = Vec::new();
        let mut x: usize = 0;
        while x < TOTAL_GRID_WIDTH
            invariant
                0 <= x <= TOTAL_GRID_WIDTH,
                y < LANE_HEIGHT,
                out@.len() == x,
                forall|k: int| 0 <= k < x ==> #[trigger] out@[k] == ascii_glyph(self.grid(), k, y as int),
            decreases TOTAL_GRID_WIDTH - x,
        {
            let c = if is_border_column(x) {
                if y >= SPAWN_WALL_MIN_Y {
                    '|'
                } else if self.cells[y][x].is_some() {
                    '#'
                } else {
                    ':'
                }
            } else if self.cells[y][x].is_some() {
                '#'
            } else if occupied_from(self, x, y + 1) {
                '.'
            } else {
                ' '
            };
            assert(self.occupancy() == self.grid());
            assert(filled(self.grid(), x as int, y as int) == self.cells[y as int][x as int] is Some);
            assert(c == ascii_glyph(self.grid(), x as int, y as int));
            out.push(c);
            x += 1;
        }
        out
    }
}

} // verus!
