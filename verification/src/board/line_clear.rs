use vstd::prelude::*;
use super::grid::GlobalBoard;
use super::lane_x_range;
use super::spec_lane_x_range;
use super::model::{clear_score, full_row_indices, kept_rows, lemma_kept_full_len};
use super::rows::{grid_cleared, grid_full_pred, grid_full_rows, grid_row_full, lemma_kept_view};
use crate::config::{LANE_COUNT, LANE_HEIGHT, SPAWN_WALL_MIN_Y, TOTAL_GRID_WIDTH};

verus! {

/// Every cell of the row is occupied.
pub open spec fn cells_row_full(row: [Option<u8>; TOTAL_GRID_WIDTH]) -> bool {
    forall|x: int| 0 <= x < TOTAL_GRID_WIDTH ==> #[trigger] row[x] is Some
}

/// `cells_row_full` as a predicate value.
pub open spec fn cells_full_pred() -> spec_fn([Option<u8>; TOTAL_GRID_WIDTH]) -> bool {
    |r: [Option<u8>; TOTAL_GRID_WIDTH]| cells_row_full(r)
}

/// The rows of the field that are not full, bottom to top.
pub open spec fn kept_cell_rows(cells: [[Option<u8>; TOTAL_GRID_WIDTH]; LANE_HEIGHT]) -> Seq<[Option<u8>; TOTAL_GRID_WIDTH]> {
    kept_rows(cells@, cells_full_pred(), LANE_HEIGHT as int)
}

/// Indices of the full rows of the field, bottom to top.
pub open spec fn full_cell_rows(cells: [[Option<u8>; TOTAL_GRID_WIDTH]; LANE_HEIGHT]) -> Seq<usize> {
    full_row_indices(cells@, cells_full_pred(), LANE_HEIGHT as int)
}

/// Some cell of lane `lane_id`'s columns in the spawn band is occupied.
pub open spec fn spawn_band_blocked(cells: [[Option<u8>; TOTAL_GRID_WIDTH]; LANE_HEIGHT], lane_id: int) -> bool {
    exists|y: int, x: int|
        SPAWN_WALL_MIN_Y <= y < LANE_HEIGHT && spec_lane_x_range(lane_id).0 <= x <= spec_lane_x_range(lane_id).1
            && #[trigger] cells[y][x] is Some
}

/// Whether every cell of the row is occupied.
fn row_is_full(row: &[Option<u8>; TOTAL_GRID_WIDTH]) -> (r: bool)
    ensures
        r == cells_row_full(*row),
{
    let mut x: usize = 0;
    while x < TOTAL_GRID_WIDTH
        invariant
            0 <= x <= TOTAL_GRID_WIDTH,
            forall|k: int| 0 <= k < x ==> #[trigger] row[k] is Some,
        decreases TOTAL_GRID_WIDTH - x,
    {
        if row[x].is_none() {
            return false;
        }
        x += 1;
    }
    true
}

/// Whether some cell of lane `lane_id`'s columns in the spawn band is occupied.
fn lane_spawn_blocked(cells: &[[Option<u8>; TOTAL_GRID_WIDTH]; LANE_HEIGHT], lane_id: usize) -> (r: bool)
    requires
        lane_id < LANE_COUNT,
    ensures
        r == spawn_band_blocked(*cells, lane_id as int),
{
    let (min_x, max_x) = lane_x_range(lane_id);
    let mut y: usize = SPAWN_WALL_MIN_Y;
    while y < LANE_HEIGHT
        invariant
            SPAWN_WALL_MIN_Y <= y <= LANE_HEIGHT,
            lane_id < LANE_COUNT,
            min_x == spec_lane_x_range(lane_id as int).0,
            max_x == spec_lane_x_range(lane_id as int).1,
            forall|yy: int, xx: int|
                SPAWN_WALL_MIN_Y <= yy < y && min_x <= xx <= max_x ==> #[trigger] cells[yy][xx] is None,
        decreases LANE_HEIGHT - y,
    {
        let mut x = min_x;
        while x <= max_x
            invariant
                SPAWN_WALL_MIN_Y <= y < LANE_HEIGHT,
                lane_id < LANE_COUNT,
                min_x == spec_lane_x_range(lane_id as int).0,
                max_x == spec_lane_x_range(lane_id as int).1,
                min_x <= x <= max_x + 1,
                forall|yy: int, xx: int|
                    SPAWN_WALL_MIN_Y <= yy < y && min_x <= xx <= max_x ==> #[trigger] cells[yy][xx] is None,
                forall|xx: int| min_x <= xx < x ==> #[trigger] cells[y as int][xx] is None,
            decreases max_x + 1 - x,
        {
            if cells[y][x].is_some() {
                return true;
            }
            x += 1;
        }
        y += 1;
    }
    false
}

impl GlobalBoard {
    /// Removes every full row, letting the rows above drop; returns the number
    /// of rows removed (see `clear_full_lines_with_indices`).
    pub fn clear_full_lines(&mut self) -> (lines: usize)
        requires
            old(self).score + clear_score(full_cell_rows(old(self).cells).len() as int) <= u32::MAX,
            old(self).lines_cleared + full_cell_rows(old(self).cells).len() <= u32::MAX,
        ensures
            lines == full_cell_rows(old(self).cells).len(),
            lines == grid_full_rows(old(self).grid()).len(),
            final(self).grid() == grid_cleared(old(self).grid()),
            cleared_as_specified(*old(self), *final(self)),
    {
        let (lines, _) = self.clear_full_lines_with_indices();
        lines
    }

    /// Removes every full row; the remaining rows keep their order and drop to
    /// the bottom, empty rows fill the top. The line count and score grow by
    /// the rows removed and `clear_score` of their number. When rows were
    /// removed the version advances, every lane whose spawn band is now empty
    /// is no longer stuck, and the game resumes unless every lane is still
    /// stuck. Returns the number of rows removed and their former indices.
    pub fn clear_full_lines_with_indices(&mut self) -> (r: (usize, Vec<usize>))
        requires
            old(self).score + clear_score(full_cell_rows(old(self).cells).len() as int) <= u32::MAX,
            old(self).lines_cleared + full_cell_rows(old(self).cells).len() <= u32::MAX,
        ensures
            r.1@ == full_cell_rows(old(self).cells),
            r.1@ == grid_full_rows(old(self).grid()),
            r.0 == r.1@.len(),
            final(self).grid() == grid_cleared(old(self).grid()),
            cleared_as_specified(*old(self), *final(self)),
    {
        let ghost rows = self.cells@;
        let ghost full = cells_full_pred();
        let mut new_cells = [[None; TOTAL_GRID_WIDTH]; LANE_HEIGHT];
        let mut new_y: usize = 0;
        let mut lines: usize = 0;
        let mut cleared_indices: Vec<usize> = Vec::new();
        let mut orig_y: usize = 0;
        while orig_y < LANE_HEIGHT
            invariant
                rows == self.cells@,
                full == cells_full_pred(),
                0 <= orig_y <= LANE_HEIGHT,
                new_y == kept_rows(rows, full, orig_y as int).len(),
                lines == full_row_indices(rows, full, orig_y as int).len(),
                new_y + lines == orig_y,
                cleared_indices@ == full_row_indices(rows, full, orig_y as int),
                forall|k: int| 0 <= k < new_y ==> #[trigger] new_cells[k] == kept_rows(rows, full, orig_y as int)[k],
                forall|k: int, x: int|
                    new_y <= k < LANE_HEIGHT && 0 <= x < TOTAL_GRID_WIDTH ==> #[trigger] new_cells[k][x] is None,
            decreases LANE_HEIGHT - orig_y,
        {
            proof {
                lemma_kept_full_len(rows, full, orig_y as int);
            }
            let is_full = row_is_full(&self.cells[orig_y]);
            if is_full {
                lines += 1;
                cleared_indices.push(orig_y);
            } else {
                new_cells[new_y] = self.cells[orig_y];
                new_y += 1;
            }
            orig_y += 1;
        }
        proof {
            lemma_kept_full_len(rows, full, LANE_HEIGHT as int);
        }
        assert(lines == full_cell_rows(old(self).cells).len());
        assert forall|y: int, x: int|
            0 <= y < LANE_HEIGHT && 0 <= x < TOTAL_GRID_WIDTH implies #[trigger] new_cells[y][x] == if y < kept_cell_rows(old(self).cells).len() {
                kept_cell_rows(old(self).cells)[y][x]
            } else {
                None
            } by {
            if y < new_y {
                assert(new_cells[y] == kept_cell_rows(old(self).cells)[y]);
            }
        }
        self.cells = new_cells;
        self.lines_cleared = self.lines_cleared + lines as u32;
        let gained: u32 = if lines == 1 {
            300
        } else if lines == 2 {
            800
        } else if lines == 3 {
            1800
        } else {
            lines as u32 * 500
        };
        self.score = self.score + gained;

        if lines > 0 {
            self.board_version = self.board_version.wrapping_add(1);
            let ghost stuck_before = self.lane_stuck;
            let ghost snap = *self;
            let mut lane_id: usize = 0;
            while lane_id < LANE_COUNT
                invariant
                    0 <= lane_id <= LANE_COUNT,
                    self.cells == snap.cells,
                    self.score == snap.score,
                    self.lines_cleared == snap.lines_cleared,
                    self.board_version == snap.board_version,
                    self.game_over == snap.game_over,
                    forall|i: int|
                        0 <= i < LANE_COUNT ==> #[trigger] self.lane_stuck[i] == if i < lane_id && !spawn_band_blocked(
                            self.cells,
                            i,
                        ) {
                            false
                        } else {
                            stuck_before[i]
                        },
                decreases LANE_COUNT - lane_id,
            {
                let still_blocked = lane_spawn_blocked(&self.cells, lane_id);
                if !still_blocked {
                    self.lane_stuck[lane_id] = false;
                }
                lane_id += 1;
            }
            let mut all_stuck = true;
            let mut i: usize = 0;
            let ghost snap2 = *self;
            while i < LANE_COUNT
                invariant
                    0 <= i <= LANE_COUNT,
                    *self == snap2,
                    all_stuck == (forall|j: int| 0 <= j < i ==> #[trigger] self.lane_stuck[j]),
                decreases LANE_COUNT - i,
            {
                if !self.lane_stuck[i] {
                    all_stuck = false;
                }
                i += 1;
            }
            assert(self.game_over == old(self).game_over);
            assert(all_stuck == forall|j: int| 0 <= j < LANE_COUNT ==> #[trigger] self.lane_stuck[j]);
            let ghost stuck_final = self.lane_stuck;
            if !all_stuck {
                self.game_over = false;
            }
            assert(self.lane_stuck == stuck_final);
            assert(self.board_version == old(self).board_version.wrapping_add(1));
            assert(forall|i: int|
                0 <= i < LANE_COUNT ==> #[trigger] self.lane_stuck[i] == (old(self).lane_stuck[i] && spawn_band_blocked(
                    self.cells,
                    i,
                )));
            assert(self.game_over == (old(self).game_over && forall|i: int| 0 <= i < LANE_COUNT ==> #[trigger] self.lane_stuck[i]));
        }
        assert(self.score == old(self).score + clear_score(lines as int));
        assert(self.lines_cleared == old(self).lines_cleared + lines);
        assert(forall|y: int, x: int|
            0 <= y < LANE_HEIGHT && 0 <= x < TOTAL_GRID_WIDTH ==> #[trigger] self.cells[y][x] == if y < kept_cell_rows(old(self).cells).len() {
                kept_cell_rows(old(self).cells)[y][x]
            } else {
                None
            });
        proof {
            lemma_global_clear_grid(*old(self), *self);
        }
        (lines, cleared_indices)
    }
}

/// `after` is `before` with its full rows cleared as `clear_full_lines_with_indices` describes.
pub open spec fn cleared_as_specified(before: GlobalBoard, after: GlobalBoard) -> bool {
    let kept = kept_cell_rows(before.cells);
    let n = full_cell_rows(before.cells).len();
    &&& forall|y: int, x: int|
        0 <= y < LANE_HEIGHT && 0 <= x < TOTAL_GRID_WIDTH ==> #[trigger] after.cells[y][x] == if y < kept.len() {
            kept[y][x]
        } else {
            None
        }
    &&& after.lines_cleared == before.lines_cleared + n
    &&& after.score == before.score + clear_score(n as int)
    &&& n == 0 ==> {
        &&& after.board_version == before.board_version
        &&& after.lane_stuck == before.lane_stuck
        &&& after.game_over == before.game_over
    }
    &&& n > 0 ==> {
        &&& after.board_version == before.board_version.wrapping_add(1)
        &&& forall|i: int|
            0 <= i < LANE_COUNT ==> #[trigger] after.lane_stuck[i] == (before.lane_stuck[i] && spawn_band_blocked(
                after.cells,
                i,
            ))
        &&& after.game_over == (before.game_over && forall|i: int| 0 <= i < LANE_COUNT ==> #[trigger] after.lane_stuck[i])
    }
}

/// The occupancy row of a row of cells.
pub open spec fn cells_row_view(row: [Option<u8>; TOTAL_GRID_WIDTH]) -> Seq<bool> {
    Seq::new(TOTAL_GRID_WIDTH as nat, |x: int| row[x] is Some)
}

/// Clearing the rows of the field clears the rows of its grid, and the rows
/// it reports full are the full rows of the grid.
pub proof fn lemma_global_clear_grid(before: GlobalBoard, after: GlobalBoard)
    requires
        cleared_as_specified(before, after),
    ensures
        after.grid() == grid_cleared(before.grid()),
        full_cell_rows(before.cells) == grid_full_rows(before.grid()),
{
    lemma_full_cell_rows(before);
    let g = before.grid();
    let view = |r: [Option<u8>; TOTAL_GRID_WIDTH]| cells_row_view(r);
    assert forall|i: int| 0 <= i < LANE_HEIGHT implies #[trigger] g[i] == view(before.cells@[i]) && cells_full_pred()(
        before.cells@[i],
    ) == grid_row_full(g[i]) by {
        assert(g[i] =~= cells_row_view(before.cells[i]));
        if grid_row_full(g[i]) {
            assert forall|x: int| 0 <= x < TOTAL_GRID_WIDTH implies #[trigger] before.cells[i][x] is Some by {
                assert(g[i][x]);
            }
        }
        if cells_row_full(before.cells[i]) {
            assert forall|x: int| 0 <= x < TOTAL_GRID_WIDTH implies #[trigger] g[i][x] by {
                assert(before.cells[i][x] is Some);
            }
        }
    }
    lemma_kept_view(before.cells@, cells_full_pred(), view, g, LANE_HEIGHT as int);
    let kept = kept_cell_rows(before.cells);
    assert forall|y: int| 0 <= y < LANE_HEIGHT implies #[trigger] after.grid()[y] =~= grid_cleared(g)[y] by {
        if y < kept.len() {
            assert forall|x: int| 0 <= x < TOTAL_GRID_WIDTH implies #[trigger] after.grid()[y][x] == grid_cleared(g)[y][x] by {
                assert(after.cells[y][x] == kept[y][x]);
            }
        } else {
            assert forall|x: int| 0 <= x < TOTAL_GRID_WIDTH implies #[trigger] after.grid()[y][x] == grid_cleared(g)[y][x] by {
                assert(after.cells[y][x] is None);
            }
        }
    }
    assert(after.grid() =~= grid_cleared(g));
}

/// The full rows of the cells are the full rows of the grid.
pub proof fn lemma_full_cell_rows(b: GlobalBoard)
    ensures
        full_cell_rows(b.cells) == grid_full_rows(b.grid()),
        full_cell_rows(b.cells).len() <= LANE_HEIGHT,
{
    let g = b.grid();
    let view = |r: [Option<u8>; TOTAL_GRID_WIDTH]| cells_row_view(r);
    assert forall|i: int| 0 <= i < LANE_HEIGHT implies #[trigger] g[i] == view(b.cells@[i]) && cells_full_pred()(
        b.cells@[i],
    ) == grid_row_full(g[i]) by {
        assert(g[i] =~= cells_row_view(b.cells[i]));
        if grid_row_full(g[i]) {
            assert forall|x: int| 0 <= x < TOTAL_GRID_WIDTH implies #[trigger] b.cells[i][x] is Some by {
                assert(g[i][x]);
            }
        }
        if cells_row_full(b.cells[i]) {
            assert forall|x: int| 0 <= x < TOTAL_GRID_WIDTH implies #[trigger] g[i][x] by {
                assert(b.cells[i][x] is Some);
            }
        }
    }
    lemma_kept_view(b.cells@, cells_full_pred(), view, g, LANE_HEIGHT as int);
    lemma_kept_full_len(b.cells@, cells_full_pred(), LANE_HEIGHT as int);
}

} // verus!
