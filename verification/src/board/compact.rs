use vstd::prelude::*;
use super::is_border_column;
use super::model::{full_row_indices, kept_rows, lemma_kept_full_len, occupied, piece_covers, piece_fits, piece_overflows};
use super::rows::{blank_row, empty_row, grid_cleared, grid_full_pred, grid_full_rows, grid_locked, grid_row_full, lemma_kept_view, wide_cleared, wide_locked};
use crate::config::{LANE_HEIGHT, SPAWN_WALL_MIN_Y, TOTAL_GRID_WIDTH};
use crate::tromino::TrominoKind;

verus! {

/// Mask of the `TOTAL_GRID_WIDTH` low bits: a completely filled row.
pub const FULL_ROW_MASK: u32 = 0x7fff_ffff;

/// Bit `i` of `v` is set.
pub open spec fn has_bit(v: u32, i: int) -> bool {
    (v & (1u32 << (i as u32))) != 0
}

/// Setting bit `j` keeps every other bit and sets bit `j`.
pub proof fn lemma_set_bit(v: u32, i: u32, j: u32)
    requires
        i < 32,
        j < 32,
    ensures
        ((v | (1u32 << j)) & (1u32 << i)) != 0 <==> (i == j || (v & (1u32 << i)) != 0),
{
    assert(((v | (1u32 << j)) & (1u32 << i)) != 0 <==> (i == j || (v & (1u32 << i)) != 0)) by (bit_vector)
        requires
            i < 32,
            j < 32,
    ;
}

/// Bit `i` of 0 is clear.
pub proof fn lemma_zero_bits(i: u32)
    requires
        i < 32,
    ensures
        (0u32 & (1u32 << i)) == 0,
{
    assert((0u32 & (1u32 << i)) == 0) by (bit_vector);
}

/// A row equals the full mask on its low bits exactly when each of the low
/// `TOTAL_GRID_WIDTH` bits is set.
pub proof fn lemma_full_mask(v: u32)
    ensures
        ((v & 0x7fff_ffffu32) == 0x7fff_ffffu32) <==> (forall|i: int| 0 <= i < TOTAL_GRID_WIDTH ==> #[trigger] has_bit(v, i)),
{
    if (v & 0x7fff_ffffu32) == 0x7fff_ffffu32 {
        assert forall|i: int| 0 <= i < TOTAL_GRID_WIDTH implies #[trigger] has_bit(v, i) by {
            let j = i as u32;
            assert((v & (1u32 << j)) != 0) by (bit_vector)
                requires
                    (v & 0x7fff_ffffu32) == 0x7fff_ffffu32,
                    j < 31,
            ;
        }
    }
    if forall|i: int| 0 <= i < TOTAL_GRID_WIDTH ==> #[trigger] has_bit(v, i) {
        assert(has_bit(v, 0) && has_bit(v, 1) && has_bit(v, 2) && has_bit(v, 3) && has_bit(v, 4) && has_bit(v, 5)
            && has_bit(v, 6) && has_bit(v, 7) && has_bit(v, 8) && has_bit(v, 9) && has_bit(v, 10) && has_bit(v, 11)
            && has_bit(v, 12) && has_bit(v, 13) && has_bit(v, 14) && has_bit(v, 15) && has_bit(v, 16) && has_bit(
            v,
            17,
        ) && has_bit(v, 18) && has_bit(v, 19) && has_bit(v, 20) && has_bit(v, 21) && has_bit(v, 22) && has_bit(v, 23)
            && has_bit(v, 24) && has_bit(v, 25) && has_bit(v, 26) && has_bit(v, 27) && has_bit(v, 28) && has_bit(v, 29)
            && has_bit(v, 30));
        assert((v & 0x7fff_ffffu32) == 0x7fff_ffffu32) by (bit_vector)
            requires
                (v & (1u32 << 0u32)) != 0,
                (v & (1u32 << 1u32)) != 0,
                (v & (1u32 << 2u32)) != 0,
                (v & (1u32 << 3u32)) != 0,
                (v & (1u32 << 4u32)) != 0,
                (v & (1u32 << 5u32)) != 0,
                (v & (1u32 << 6u32)) != 0,
                (v & (1u32 << 7u32)) != 0,
                (v & (1u32 << 8u32)) != 0,
                (v & (1u32 << 9u32)) != 0,
                (v & (1u32 << 10u32)) != 0,
                (v & (1u32 << 11u32)) != 0,
                (v & (1u32 << 12u32)) != 0,
                (v & (1u32 << 13u32)) != 0,
                (v & (1u32 << 14u32)) != 0,
                (v & (1u32 << 15u32)) != 0,
                (v & (1u32 << 16u32)) != 0,
                (v & (1u32 << 17u32)) != 0,
                (v & (1u32 << 18u32)) != 0,
                (v & (1u32 << 19u32)) != 0,
                (v & (1u32 << 20u32)) != 0,
                (v & (1u32 << 21u32)) != 0,
                (v & (1u32 << 22u32)) != 0,
                (v & (1u32 << 23u32)) != 0,
                (v & (1u32 << 24u32)) != 0,
                (v & (1u32 << 25u32)) != 0,
                (v & (1u32 << 26u32)) != 0,
                (v & (1u32 << 27u32)) != 0,
                (v & (1u32 << 28u32)) != 0,
                (v & (1u32 << 29u32)) != 0,
                (v & (1u32 << 30u32)) != 0,
        ;
    }
}

/// Bitboard twin of the field: bit `x` of `rows[y]` is set when cell `(x, y)`
/// is occupied. Used by the search for cheap copies and simulations.
#[derive(Debug, Clone, Copy, PartialEq, Eq)]
pub struct CompactBoard {
    pub rows: [u32; LANE_HEIGHT],
}

/// The row holds every column of the field.
pub open spec fn compact_row_full(v: u32) -> bool {
    (v & FULL_ROW_MASK) == FULL_ROW_MASK
}

/// `compact_row_full` as a predicate value.
pub open spec fn compact_full_pred() -> spec_fn(u32) -> bool {
    |v: u32| compact_row_full(v)
}

impl CompactBoard {
    /// Occupancy view of the bits.
    pub open spec fn grid(self) -> Seq<Seq<bool>> {
        Seq::new(LANE_HEIGHT as nat, |y: int| Seq::new(TOTAL_GRID_WIDTH as nat, |x: int| has_bit(self.rows[y], x)))
    }

    /// All 32 bits of every row, including those past the right edge.
    pub open spec fn words(self) -> Seq<Seq<bool>> {
        Seq::new(LANE_HEIGHT as nat, |y: int| word_row(self.rows[y]))
    }

    /// Whether `(x, y)` is blocked: a side wall, the floor, a separator wall in
    /// the spawn band, or an occupied cell. Cells above the field are free.
    pub fn is_occupied(&self, x: i32, y: i32) -> (r: bool)
        ensures
            r == occupied(self.grid(), x as int, y as int),
    {
        if x < 0 || x >= TOTAL_GRID_WIDTH as i32 || y < 0 {
            return true;
        }
        if y >= SPAWN_WALL_MIN_Y as i32 && is_border_column(x as usize) {
            return true;
        }
        if y >= LANE_HEIGHT as i32 {
            return false;
        }
        (self.rows[y as usize] & (1u32 << (x as u32))) != 0
    }

    /// Whether the piece fits with its origin at `(base_x, base_y)`.
    pub fn can_place(&self, kind: &TrominoKind, rotation: usize, base_x: i32, base_y: i32) -> (r: bool)
        requires
            base_x <= i32::MAX - 2,
            base_y <= i32::MAX - 2,
        ensures
            r == piece_fits(self.grid(), kind.spec_cell_offsets(rotation as nat), base_x as int, base_y as int),
    {
        let offsets = kind.cell_offsets(rotation);
        let ghost offs = kind.spec_cell_offsets(rotation as nat);
        let mut i: usize = 0;
        while i < offsets.len()
            invariant
                offsets@ == offs,
                offs == kind.spec_cell_offsets(rotation as nat),
                offs.len() == 3,
                forall|k: int| 0 <= k < offs.len() ==> 0 <= #[trigger] offs[k].0 <= 2 && 0 <= offs[k].1 <= 2,
                base_x <= i32::MAX - 2,
                base_y <= i32::MAX - 2,
                0 <= i <= offsets.len(),
                forall|k: int| 0 <= k < i ==> !occupied(self.grid(), base_x + #[trigger] offs[k].0, base_y + offs[k].1),
            decreases offsets.len() - i,
        {
            let (dx, dy) = offsets[i];
            if self.is_occupied(base_x + dx, base_y + dy) {
                assert(occupied(self.grid(), base_x + offs[i as int].0, base_y + offs[i as int].1));
                return false;
            }
            i += 1;
        }
        true
    }

    /// Sets the bits of the cells the piece covers inside the field; returns
    /// `false` when some cell lies above the top row.
    pub fn lock_tromino(&mut self, kind: &TrominoKind, rotation: usize, base_x: i32, base_y: i32) -> (r: bool)
        requires
            base_x <= i32::MAX - 2,
            base_y <= i32::MAX - 2,
        ensures
            r == !piece_overflows(kind.spec_cell_offsets(rotation as nat), base_y as int),
            final(self).grid() == grid_locked(old(self).grid(), kind.spec_cell_offsets(rotation as nat), base_x as int, base_y as int),
            final(self).words() == wide_locked(old(self).words(), kind.spec_cell_offsets(rotation as nat), base_x as int, base_y as int, 32),
            forall|y: int, x: int|
                0 <= y < LANE_HEIGHT && TOTAL_GRID_WIDTH <= x < 32 ==> #[trigger] has_bit(final(self).rows[y], x)
                    == has_bit(old(self).rows[y], x),
    {
        let ghost offs = kind.spec_cell_offsets(rotation as nat);
        let ghost old_rows = self.rows;
        let offsets = kind.cell_offsets(rotation);
        let mut top_overflow = false;
        let mut i: usize = 0;
        while i < offsets.len()
            invariant
                offsets@ == offs,
                offs == kind.spec_cell_offsets(rotation as nat),
                offs.len() == 3,
                forall|k: int| 0 <= k < offs.len() ==> 0 <= #[trigger] offs[k].0 <= 2 && 0 <= offs[k].1 <= 2,
                base_x <= i32::MAX - 2,
                base_y <= i32::MAX - 2,
                0 <= i <= offsets.len(),
                top_overflow == exists|k: int| 0 <= k < i && base_y + #[trigger] offs[k].1 >= LANE_HEIGHT,
                forall|y: int, x: int|
                    0 <= y < LANE_HEIGHT && 0 <= x < 32 ==> #[trigger] has_bit(self.rows[y], x) == (has_bit(old_rows[y], x)
                        || (x < TOTAL_GRID_WIDTH && exists|k: int|
                        0 <= k < i && base_x + #[trigger] offs[k].0 == x && base_y + offs[k].1 == y)),
            decreases offsets.len() - i,
        {
            let (dx, dy) = offsets[i];
            let cx = base_x + dx;
            let cy = base_y + dy;
            let ghost before = self.rows;
            if cy >= LANE_HEIGHT as i32 {
                top_overflow = true;
            } else if cx >= 0 && (cx as usize) < TOTAL_GRID_WIDTH && cy >= 0 {
                self.rows[cy as usize] = self.rows[cy as usize] | (1u32 << (cx as u32));
            }
            proof {
                assert forall|y: int, x: int| 0 <= y < LANE_HEIGHT && 0 <= x < 32 implies #[trigger] has_bit(self.rows[y], x)
                    == (has_bit(old_rows[y], x) || (x < TOTAL_GRID_WIDTH && exists|k: int|
                    0 <= k < i + 1 && base_x + #[trigger] offs[k].0 == x && base_y + offs[k].1 == y)) by {
                    let ex_old = exists|k: int| 0 <= k < i && base_x + #[trigger] offs[k].0 == x && base_y + offs[k].1 == y;
                    let ex_new = exists|k: int| 0 <= k < i + 1 && base_x + #[trigger] offs[k].0 == x && base_y + offs[k].1 == y;
                    assert(base_x + offs[i as int].0 == cx && base_y + offs[i as int].1 == cy);
                    if ex_new {
                        let k = choose|k: int| 0 <= k < i + 1 && base_x + #[trigger] offs[k].0 == x && base_y + offs[k].1 == y;
                        if k < i {
                            assert(ex_old);
                        } else {
                            assert(cx == x && cy == y);
                        }
                    }
                    if cx == x && cy == y {
                        assert(ex_new);
                    }
                    if ex_old {
                        let k = choose|k: int| 0 <= k < i && base_x + #[trigger] offs[k].0 == x && base_y + offs[k].1 == y;
                        assert(ex_new);
                    }
                    assert(ex_new == (ex_old || (cx == x && cy == y)));
                    assert(has_bit(before[y], x) == (has_bit(old_rows[y], x) || (x < TOTAL_GRID_WIDTH && ex_old)));
                    if cy < LANE_HEIGHT as i32 && cx >= 0 && cx < TOTAL_GRID_WIDTH && cy >= 0 && y == cy {
                        lemma_set_bit(before[y], x as u32, cx as u32);
                        assert(self.rows[y] == before[y] | (1u32 << (cx as u32)));
                        assert(has_bit(self.rows[y], x) == (x == cx || has_bit(before[y], x)));
                    } else {
                        assert(self.rows[y] == before[y]);
                    }
                }
                if cy >= LANE_HEIGHT as i32 {
                    assert(base_y + offs[i as int].1 >= LANE_HEIGHT);
                } else {
                    if exists|k: int| 0 <= k < i + 1 && base_y + #[trigger] offs[k].1 >= LANE_HEIGHT {
                        let k = choose|k: int| 0 <= k < i + 1 && base_y + #[trigger] offs[k].1 >= LANE_HEIGHT;
                        assert(k != i);
                    }
                }
            }
            i += 1;
        }
        assert(self.grid() =~= grid_locked(old(self).grid(), offs, base_x as int, base_y as int)) by {
            assert forall|y: int| 0 <= y < LANE_HEIGHT implies #[trigger] self.grid()[y] =~= grid_locked(
                old(self).grid(),
                offs,
                base_x as int,
                base_y as int,
            )[y] by {}
        }
        assert(self.words() =~= wide_locked(old(self).words(), offs, base_x as int, base_y as int, 32)) by {
            assert forall|y: int| 0 <= y < LANE_HEIGHT implies #[trigger] self.words()[y] =~= wide_locked(
                old(self).words(),
                offs,
                base_x as int,
                base_y as int,
                32,
            )[y] by {}
        }
        !top_overflow
    }

    /// Removes every full row, letting the rows above drop; returns the number of rows removed.
    pub fn clear_full_lines(&mut self) -> (lines: usize)
        ensures
            lines == grid_full_rows(old(self).grid()).len(),
            final(self).grid() == grid_cleared(old(self).grid()),
            final(self).words() == wide_cleared(old(self).words(), 32),
            compact_cleared(*old(self), *final(self)),
    {
        let (lines, _) = self.clear_full_lines_with_indices();
        lines
    }

    /// Removes every full row: the other rows keep their order and drop to the
    /// bottom, empty rows fill the top. Returns the number of rows removed and
    /// their former indices.
    pub fn clear_full_lines_with_indices(&mut self) -> (r: (usize, Vec<usize>))
        ensures
            r.1@ == grid_full_rows(old(self).grid()),
            r.0 == r.1@.len(),
            final(self).grid() == grid_cleared(old(self).grid()),
            final(self).words() == wide_cleared(old(self).words(), 32),
            compact_cleared(*old(self), *final(self)),
    {
        let ghost rows = self.rows@;
        let ghost full = compact_full_pred();
        let mut new_rows = [0u32; LANE_HEIGHT];
        let mut new_y: usize = 0;
        let mut lines: usize = 0;
        let mut cleared_indices: Vec<usize> = Vec::new();
        let mut orig_y: usize = 0;
        while orig_y < LANE_HEIGHT
            invariant
                rows == self.rows@,
                full == compact_full_pred(),
                0 <= orig_y <= LANE_HEIGHT,
                new_y == kept_rows(rows, full, orig_y as int).len(),
                lines == full_row_indices(rows, full, orig_y as int).len(),
                new_y + lines == orig_y,
                cleared_indices@ == full_row_indices(rows, full, orig_y as int),
                forall|k: int| 0 <= k < new_y ==> #[trigger] new_rows[k] == kept_rows(rows, full, orig_y as int)[k],
                forall|k: int| new_y <= k < LANE_HEIGHT ==> #[trigger] new_rows[k] == 0,
            decreases LANE_HEIGHT - orig_y,
        {
            proof {
                lemma_kept_full_len(rows, full, orig_y as int);
            }
            let row = self.rows[orig_y];
            if (row & FULL_ROW_MASK) == FULL_ROW_MASK {
                lines += 1;
                cleared_indices.push(orig_y);
            } else {
                new_rows[new_y] = row;
                new_y += 1;
            }
            orig_y += 1;
        }
        proof {
            lemma_kept_full_len(rows, full, LANE_HEIGHT as int);
        }
        self.rows = new_rows;
        proof {
            lemma_compact_clear_grid(*old(self), *self);
        }
        (lines, cleared_indices)
    }

    /// Whether `(x, y)` is an occupied cell of the field (`false` outside it).
    pub fn has_cell(&self, x: usize, y: usize) -> (r: bool)
        ensures
            r == (x < TOTAL_GRID_WIDTH && y < LANE_HEIGHT && self.grid()[y as int][x as int]),
    {
        if x >= TOTAL_GRID_WIDTH || y >= LANE_HEIGHT {
            return false;
        }
        (self.rows[y] & (1u32 << (x as u32))) != 0
    }
}

/// `after` is `before` with its full rows removed and the others dropped to the bottom.
pub open spec fn compact_cleared(before: CompactBoard, after: CompactBoard) -> bool {
    let kept = kept_rows(before.rows@, compact_full_pred(), LANE_HEIGHT as int);
    forall|y: int| 0 <= y < LANE_HEIGHT ==> #[trigger] after.rows[y] == if y < kept.len() { kept[y] } else { 0 }
}

/// The 32 bits of a bitboard row.
pub open spec fn word_row(v: u32) -> Seq<bool> {
    Seq::new(32, |x: int| has_bit(v, x))
}

/// The occupancy row of a bitboard row.
pub open spec fn bits_row(v: u32) -> Seq<bool> {
    Seq::new(TOTAL_GRID_WIDTH as nat, |x: int| has_bit(v, x))
}

/// Clearing the rows of a bitboard clears the rows of its grid, and the rows
/// it reports full are the full rows of the grid.
pub proof fn lemma_compact_clear_grid(before: CompactBoard, after: CompactBoard)
    requires
        compact_cleared(before, after),
    ensures
        after.grid() == grid_cleared(before.grid()),
        full_row_indices(before.rows@, compact_full_pred(), LANE_HEIGHT as int) == grid_full_rows(before.grid()),
        after.words() == wide_cleared(before.words(), 32),
{
    lemma_compact_clear_words(before, after);
    let g = before.grid();
    let view = |v: u32| bits_row(v);
    assert forall|i: int| 0 <= i < LANE_HEIGHT implies #[trigger] g[i] == view(before.rows@[i]) && compact_full_pred()(
        before.rows@[i],
    ) == grid_row_full(g[i]) by {
        assert(g[i] =~= bits_row(before.rows[i]));
        lemma_full_mask(before.rows[i]);
        if grid_row_full(g[i]) {
            assert forall|x: int| 0 <= x < TOTAL_GRID_WIDTH implies #[trigger] has_bit(before.rows[i], x) by {
                assert(g[i][x]);
            }
        }
        if compact_row_full(before.rows[i]) {
            assert forall|x: int| 0 <= x < TOTAL_GRID_WIDTH implies #[trigger] g[i][x] by {
                assert(has_bit(before.rows[i], x));
            }
        }
    }
    lemma_kept_view(before.rows@, compact_full_pred(), view, g, LANE_HEIGHT as int);
    let kept = kept_rows(before.rows@, compact_full_pred(), LANE_HEIGHT as int);
    assert forall|y: int| 0 <= y < LANE_HEIGHT implies #[trigger] after.grid()[y] =~= grid_cleared(g)[y] by {
        if y < kept.len() {
            assert(after.rows[y] == kept[y]);
        } else {
            assert(after.rows[y] == 0);
            assert forall|x: int| 0 <= x < TOTAL_GRID_WIDTH implies !#[trigger] has_bit(after.rows[y], x) by {
                lemma_zero_bits(x as u32);
            }
        }
    }
    assert(after.grid() =~= grid_cleared(g));
}

/// Clearing the rows of a bitboard clears the rows of its 32-bit words.
pub proof fn lemma_compact_clear_words(before: CompactBoard, after: CompactBoard)
    requires
        compact_cleared(before, after),
    ensures
        after.words() == wide_cleared(before.words(), 32),
{
    let w = before.words();
    let view = |v: u32| word_row(v);
    assert forall|i: int| 0 <= i < LANE_HEIGHT implies #[trigger] w[i] == view(before.rows@[i]) && compact_full_pred()(
        before.rows@[i],
    ) == grid_row_full(w[i]) by {
        lemma_full_mask(before.rows[i]);
        if grid_row_full(w[i]) {
            assert forall|x: int| 0 <= x < TOTAL_GRID_WIDTH implies #[trigger] has_bit(before.rows[i], x) by {
                assert(w[i][x]);
            }
        }
        if compact_row_full(before.rows[i]) {
            assert forall|x: int| 0 <= x < TOTAL_GRID_WIDTH implies #[trigger] w[i][x] by {
                assert(has_bit(before.rows[i], x));
            }
        }
    }
    lemma_kept_view(before.rows@, compact_full_pred(), view, w, LANE_HEIGHT as int);
    let kept = kept_rows(before.rows@, compact_full_pred(), LANE_HEIGHT as int);
    assert forall|y: int| 0 <= y < LANE_HEIGHT implies #[trigger] after.words()[y] =~= wide_cleared(w, 32)[y] by {
        if y < kept.len() {
            assert(after.rows[y] == kept[y]);
        } else {
            assert(after.rows[y] == 0);
            assert forall|x: int| 0 <= x < 32 implies !#[trigger] has_bit(after.rows[y], x) by {
                lemma_zero_bits(x as u32);
            }
        }
    }
    assert(after.words() =~= wide_cleared(w, 32));
}

} // verus!
