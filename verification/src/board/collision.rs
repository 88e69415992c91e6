use vstd::prelude::*;
use super::grid::GlobalBoard;
use super::is_border_column;
use super::model::{occupied, piece_covers, piece_fits, piece_overflows};
use super::rows::grid_locked;
use super::grid::spec_palette_slot;
use crate::config::{LANE_COUNT, LANE_HEIGHT, SPAWN_WALL_MIN_Y, TOTAL_GRID_WIDTH};
use crate::tromino::TrominoKind;

verus! {

impl GlobalBoard {
    /// Whether `(x, y)` is blocked: a side wall, the floor, a separator wall in
    /// the spawn band, or an occupied cell. Cells above the field are free.
    pub fn is_occupied(&self, x: i32, y: i32) -> (r: bool)
        ensures
            r == occupied(self.grid(), x as int, y as int),
    {
        if x < 0 || x >= TOTAL_GRID_WIDTH as i32 || y < 0 {
            return true;
        }
        if y >= SPAWN_WALL_MIN_Y as i32 && is_border_column(x as usize) {
            return true;
        }
        if y >= LANE_HEIGHT as i32 {
            return false;
        }
        self.cells[y as usize][x as usize].is_some()
    }

    /// Whether the piece fits with its origin at `(base_x, base_y)`.
    pub fn can_place(&self, kind: &TrominoKind, rotation: usize, base_x: i32, base_y: i32) -> (r: bool)
        requires
            base_x <= i32::MAX - 2,
            base_y <= i32::MAX - 2,
        ensures
            r == piece_fits(self.grid(), kind.spec_cell_offsets(rotation as nat), base_x as int, base_y as int),
    {
        let offsets = kind.cell_offsets(rotation);
        let ghost offs = kind.spec_cell_offsets(rotation as nat);
        let mut i: usize = 0;
        while i < offsets.len()
            invariant
                offsets@ == offs,
                offs == kind.spec_cell_offsets(rotation as nat),
                offs.len() == 3,
                forall|k: int| 0 <= k < offs.len() ==> 0 <= #[trigger] offs[k].0 <= 2 && 0 <= offs[k].1 <= 2,
                base_x <= i32::MAX - 2,
                base_y <= i32::MAX - 2,
                0 <= i <= offsets.len(),
                forall|k: int| 0 <= k < i ==> !occupied(self.grid(), base_x + #[trigger] offs[k].0, base_y + offs[k].1),
            decreases offsets.len() - i,
        {
            let (dx, dy) = offsets[i];
            if self.is_occupied(base_x + dx, base_y + dy) {
                assert(occupied(self.grid(), base_x + offs[i as int].0, base_y + offs[i as int].1));
                return false;
            }
            i += 1;
        }
        true
    }

    /// Locks the piece into the field at `(base_x, base_y)`, marking the cells it
    /// covers inside the field with the player's colour. When a cell lies above
    /// the top row the player's lane becomes stuck (the game ends once every
    /// lane is) and `false` is returned; otherwise the score rises by 10, the
    /// version advances and `true` is returned.
    pub fn lock_tromino(
        &mut self,
        player_id: usize,
        kind: &TrominoKind,
        rotation: usize,
        base_x: i32,
        base_y: i32,
    ) -> (r: bool)
        requires
            base_x <= i32::MAX - 2,
            base_y <= i32::MAX - 2,
            !piece_overflows(kind.spec_cell_offsets(rotation as nat), base_y as int) ==> old(self).score + 10
                <= u32::MAX,
        ensures
            locked_as_specified(
                *old(self),
                *final(self),
                player_id,
                kind.spec_cell_offsets(rotation as nat),
                base_x as int,
                base_y as int,
                r,
            ),
    {
        let ghost offs = kind.spec_cell_offsets(rotation as nat);
        let ghost old_cells = self.cells;
        let slot = super::grid::player_palette_slot(player_id);
        let offsets = kind.cell_offsets(rotation);
        let mut top_overflow = false;
        let mut i: usize = 0;
        while i < offsets.len()
            invariant
                offsets@ == offs,
                offs == kind.spec_cell_offsets(rotation as nat),
                offs.len() == 3,
                forall|k: int| 0 <= k < offs.len() ==> 0 <= #[trigger] offs[k].0 <= 2 && 0 <= offs[k].1 <= 2,
                base_x <= i32::MAX - 2,
                base_y <= i32::MAX - 2,
                0 <= i <= offsets.len(),
                slot == spec_palette_slot(player_id as int),
                top_overflow == exists|k: int| 0 <= k < i && base_y + #[trigger] offs[k].1 >= LANE_HEIGHT,
                forall|y: int, x: int|
                    0 <= y < LANE_HEIGHT && 0 <= x < TOTAL_GRID_WIDTH ==> #[trigger] self.cells[y][x] == if exists|k: int|
                        0 <= k < i && base_x + #[trigger] offs[k].0 == x && base_y + offs[k].1 == y {
                        Some(slot)
                    } else {
                        old_cells[y][x]
                    },
                self.score == old(self).score,
                self.lines_cleared == old(self).lines_cleared,
                self.board_version == old(self).board_version,
                self.lane_stuck == old(self).lane_stuck,
                self.game_over == old(self).game_over,
            decreases offsets.len() - i,
        {
            let (dx, dy) = offsets[i];
            let cx = base_x + dx;
            let cy = base_y + dy;
            let ghost before = self.cells;
            if cy >= LANE_HEIGHT as i32 {
                top_overflow = true;
            } else if cx >= 0 && (cx as usize) < TOTAL_GRID_WIDTH && cy >= 0 {
                self.cells[cy as usize][cx as usize] = Some(slot);
            }
            proof {
                assert forall|y: int, x: int|
                    0 <= y < LANE_HEIGHT && 0 <= x < TOTAL_GRID_WIDTH implies #[trigger] self.cells[y][x] == if exists|k: int|
                        0 <= k < i + 1 && base_x + #[trigger] offs[k].0 == x && base_y + offs[k].1 == y {
                        Some(slot)
                    } else {
                        old_cells[y][x]
                    } by {
                    if x == cx && y == cy {
                        assert(base_x + offs[i as int].0 == x && base_y + offs[i as int].1 == y);
                    } else {
                        assert(self.cells[y][x] == before[y][x]);
                        if exists|k: int| 0 <= k < i + 1 && base_x + #[trigger] offs[k].0 == x && base_y + offs[k].1 == y {
                            let k = choose|k: int| 0 <= k < i + 1 && base_x + #[trigger] offs[k].0 == x && base_y + offs[k].1 == y;
                            assert(k != i);
                        }
                    }
                }
                if cy >= LANE_HEIGHT as i32 {
                    assert(base_y + offs[i as int].1 >= LANE_HEIGHT);
                } else {
                    if exists|k: int| 0 <= k < i + 1 && base_y + #[trigger] offs[k].1 >= LANE_HEIGHT {
                        let k = choose|k: int| 0 <= k < i + 1 && base_y + #[trigger] offs[k].1 >= LANE_HEIGHT;
                        assert(k != i);
                    }
                }
            }
            i += 1;
        }
        assert(self.grid() =~= grid_locked(old(self).grid(), offs, base_x as int, base_y as int)) by {
            assert forall|y: int| 0 <= y < LANE_HEIGHT implies #[trigger] self.grid()[y] =~= grid_locked(
                old(self).grid(),
                offs,
                base_x as int,
                base_y as int,
            )[y] by {}
        }
        if top_overflow {
            self.mark_lane_stuck(player_id % LANE_COUNT);
            return false;
        }
        self.score = self.score + 10;
        self.board_version = self.board_version.wrapping_add(1);
        true
    }
}


/// `after` is `before` with the piece `offs` locked at `(bx, by)` by player
/// `player_id`, `r` telling whether it stayed below the top: its cells inside
/// the field take the player's colour; a lock inside the field scores 10 and
/// advances the version, one reaching above the top marks the player's lane
/// stuck and ends the game once every lane is.
pub open spec fn locked_as_specified(
    before: GlobalBoard,
    after: GlobalBoard,
    player_id: usize,
    offs: Seq<(i32, i32)>,
    bx: int,
    by: int,
    r: bool,
) -> bool {
    &&& r == !piece_overflows(offs, by)
    &&& after.grid() == grid_locked(before.grid(), offs, bx, by)
    &&& forall|y: int, x: int|
        0 <= y < LANE_HEIGHT && 0 <= x < TOTAL_GRID_WIDTH ==> #[trigger] after.cells[y][x] == if piece_covers(
            offs,
            bx,
            by,
            x,
            y,
        ) {
            Some(spec_palette_slot(player_id as int))
        } else {
            before.cells[y][x]
        }
    &&& after.lines_cleared == before.lines_cleared
    &&& r ==> {
        &&& after.score == before.score + 10
        &&& after.board_version == before.board_version.wrapping_add(1)
        &&& after.lane_stuck == before.lane_stuck
        &&& after.game_over == before.game_over
    }
    &&& !r ==> {
        &&& after.score == before.score
        &&& after.board_version == before.board_version
        &&& after.lane_stuck@ == before.lane_stuck@.update(player_id as int % LANE_COUNT as int, true)
        &&& after.game_over == (before.game_over || forall|i: int|
            0 <= i < LANE_COUNT ==> #[trigger] after.lane_stuck[i])
    }
}

} // verus!
