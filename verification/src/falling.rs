//! Collision of a falling piece with the field and with the other falling
//! pieces, and rotation with wall kicks.

use vstd::prelude::*;
use crate::ai::eval::lock_and_clear_fit;
use crate::board::collision::locked_as_specified;
use crate::board::line_clear::{cleared_as_specified, full_cell_rows};
use crate::board::model::{occupied, piece_fits, piece_overflows};
use crate::board::{spec_lane_x_range, GlobalBoard};
use crate::config::LANE_COUNT;
use crate::tromino::TrominoKind;

verus! {

/// Some falling piece other than `this` (identified by its entity id) covers `(x, y)`.
pub open spec fn taken_by_other(falling: Seq<(u64, Vec<(i32, i32)>)>, this: u64, x: int, y: int) -> bool {
    exists|k: int, j: int|
        0 <= k < falling.len() && falling[k].0 != this && 0 <= j < falling[k].1@.len() && (#[trigger] falling[k].1@[j]).0
            == x && falling[k].1@[j].1 == y
}

/// The piece `offs` at `(x, y)` hits a wall, the floor, a locked cell or a
/// cell of another falling piece.
pub open spec fn collides_at(
    g: Seq<Seq<bool>>,
    offs: Seq<(i32, i32)>,
    x: int,
    y: int,
    this: u64,
    falling: Seq<(u64, Vec<(i32, i32)>)>,
) -> bool {
    exists|i: int|
        0 <= i < offs.len() && (occupied(g, x + #[trigger] offs[i].0, y + offs[i].1) || taken_by_other(
            falling,
            this,
            x + offs[i].0,
            y + offs[i].1,
        ))
}

/// Whether a cell of another falling piece is `(x, y)`.
fn cell_taken(this_entity: u64, current_falling: &[(u64, Vec<(i32, i32)>)], x: i32, y: i32) -> (r: bool)
    ensures
        r == taken_by_other(current_falling@, this_entity, x as int, y as int),
{
    let mut k: usize = 0;
    while k < current_falling.len()
        invariant
            0 <= k <= current_falling@.len(),
            forall|kk: int, j: int|
                0 <= kk < k && current_falling@[kk].0 != this_entity && 0 <= j < current_falling@[kk].1@.len() ==> !((
                #[trigger] current_falling@[kk].1@[j]).0 == x && current_falling@[kk].1@[j].1 == y),
        decreases current_falling.len() - k,
    {
        let entry = &current_falling[k];
        if entry.0 != this_entity {
            let cells = &entry.1;
            let mut j: usize = 0;
            while j < cells.len()
                invariant
                    0 <= j <= cells@.len(),
                    k < current_falling@.len(),
                    *entry == current_falling@[k as int],
                    entry.0 != this_entity,
                    cells == &entry.1,
                    forall|jj: int| 0 <= jj < j ==> !((#[trigger] cells@[jj]).0 == x && cells@[jj].1 == y),
                decreases cells.len() - j,
            {
                if cells[j].0 == x && cells[j].1 == y {
                    assert(current_falling@[k as int].1@[j as int] == cells@[j as int]);
                    return true;
                }
                j += 1;
            }
        }
        k += 1;
    }
    false
}

/// Whether the piece at `(x, y)` in `rotation` hits a wall, the floor, a
/// locked cell, or a cell of a falling piece other than `this_entity`.
pub fn check_position_collision(
    board: &GlobalBoard,
    kind: &TrominoKind,
    rotation: usize,
    x: i32,
    y: i32,
    this_entity: u64,
    current_falling: &[(u64, Vec<(i32, i32)>)],
) -> (r: bool)
    requires
        x <= i32::MAX - 2,
        y <= i32::MAX - 2,
    ensures
        r == collides_at(board.grid(), kind.spec_cell_offsets(rotation as nat), x as int, y as int, this_entity, current_falling@),
{
    let offsets = kind.cell_offsets(rotation);
    let ghost offs = offsets@;
    proof {
        crate::ai::pathfinding::explore::lemma_offsets_shape(*kind, rotation as nat);
    }
    let mut i: usize = 0;
    while i < offsets.len()
        invariant
            0 <= i <= offs.len(),
            offs == offsets@,
            offs == kind.spec_cell_offsets(rotation as nat),
            offs.len() == 3,
            forall|k: int| 0 <= k < 3 ==> 0 <= #[trigger] offs[k].0 <= 2 && 0 <= offs[k].1 <= 2,
            x <= i32::MAX - 2,
            y <= i32::MAX - 2,
            forall|k: int|
                0 <= k < i ==> !(occupied(board.grid(), x + #[trigger] offs[k].0, y + offs[k].1) || taken_by_other(
                    current_falling@,
                    this_entity,
                    x + offs[k].0,
                    y + offs[k].1,
                )),
        decreases offsets.len() - i,
    {
        let (dx, dy) = offsets[i];
        let cx = x + dx;
        let cy = y + dy;
        if board.is_occupied(cx, cy) || cell_taken(this_entity, current_falling, cx, cy) {
            assert(occupied(board.grid(), x + offs[i as int].0, y + offs[i as int].1) || taken_by_other(
                current_falling@,
                this_entity,
                x + offs[i as int].0,
                y + offs[i as int].1,
            ));
            return true;
        }
        i += 1;
    }
    false
}

/// Shifts tried, in order, when a rotated piece collides: in place, left,
/// right, up, up-left, up-right, down.
pub open spec fn rotation_kicks() -> Seq<(int, int)> {
    seq![(0, 0), (-1, 0), (1, 0), (0, 1), (-1, 1), (1, 1), (0, -1)]
}

/// Position given by the first kick from index `k` on after which the piece
/// in rotation `to_rot` collides with nothing.
pub open spec fn first_free_kick(
    g: Seq<Seq<bool>>,
    offs: Seq<(i32, i32)>,
    x: int,
    y: int,
    this: u64,
    falling: Seq<(u64, Vec<(i32, i32)>)>,
    k: int,
) -> Option<(i32, i32)>
    decreases 7 - k,
{
    if k < 0 || k >= 7 {
        None
    } else if !collides_at(g, offs, x + rotation_kicks()[k].0, y + rotation_kicks()[k].1, this, falling) {
        Some(((x + rotation_kicks()[k].0) as i32, (y + rotation_kicks()[k].1) as i32))
    } else {
        first_free_kick(g, offs, x, y, this, falling, k + 1)
    }
}

/// Rotates the piece at `(cur_x, cur_y)` from `from_rot` to `to_rot`: the same
/// rotation keeps its place; otherwise the first kick after which nothing is
/// hit gives the new position, and `None` means the rotation fails.
pub fn try_rotate_with_kick(
    board: &GlobalBoard,
    kind: &TrominoKind,
    from_rot: usize,
    to_rot: usize,
    cur_x: i32,
    cur_y: i32,
    this_entity: u64,
    current_falling: &[(u64, Vec<(i32, i32)>)],
) -> (r: Option<(i32, i32)>)
    requires
        from_rot != to_rot ==> i32::MIN + 1 <= cur_x <= i32::MAX - 3,
        from_rot != to_rot ==> i32::MIN + 1 <= cur_y <= i32::MAX - 3,
    ensures
        from_rot == to_rot ==> r == Some((cur_x, cur_y)),
        from_rot != to_rot ==> r == first_free_kick(
            board.grid(),
            kind.spec_cell_offsets(to_rot as nat),
            cur_x as int,
            cur_y as int,
            this_entity,
            current_falling@,
            0,
        ),
{
    if from_rot == to_rot {
        return Some((cur_x, cur_y));
    }
    let ghost g = board.grid();
    let ghost offs = kind.spec_cell_offsets(to_rot as nat);
    let mut k: usize = 0;
    while k < 7
        invariant
            0 <= k <= 7,
            from_rot != to_rot,
            g == board.grid(),
            offs == kind.spec_cell_offsets(to_rot as nat),
            i32::MIN + 1 <= cur_x <= i32::MAX - 3,
            i32::MIN + 1 <= cur_y <= i32::MAX - 3,
            first_free_kick(g, offs, cur_x as int, cur_y as int, this_entity, current_falling@, 0) == first_free_kick(
                g,
                offs,
                cur_x as int,
                cur_y as int,
                this_entity,
                current_falling@,
                k as int,
            ),
        decreases 7 - k,
    {
        let (kdx, kdy): (i32, i32) = if k == 0 {
            (0, 0)
        } else if k == 1 {
            (-1, 0)
        } else if k == 2 {
            (1, 0)
        } else if k == 3 {
            (0, 1)
        } else if k == 4 {
            (-1, 1)
        } else if k == 5 {
            (1, 1)
        } else {
            (0, -1)
        };
        assert(kdx == rotation_kicks()[k as int].0 && kdy == rotation_kicks()[k as int].1);
        let test_x = cur_x + kdx;
        let test_y = cur_y + kdy;
        if !check_position_collision(board, kind, to_rot, test_x, test_y, this_entity, current_falling) {
            return Some((test_x, test_y));
        }
        k += 1;
    }
    None
}

/// Some cell of the piece at `(x, y)` sits right above a wall, the floor or a locked cell.
pub open spec fn on_ground(g: Seq<Seq<bool>>, offs: Seq<(i32, i32)>, x: int, y: int) -> bool {
    exists|i: int| 0 <= i < offs.len() && occupied(g, x + #[trigger] offs[i].0, y + offs[i].1 - 1)
}

/// Whether the piece at `(x, y)` rests on something: a cell right below one
/// of its cells is a wall, the floor or a locked cell.
pub fn touches_ground(board: &GlobalBoard, kind: &TrominoKind, rotation: usize, x: i32, y: i32) -> (r: bool)
    requires
        x <= i32::MAX - 2,
        i32::MIN + 1 <= y <= i32::MAX - 2,
    ensures
        r == on_ground(board.grid(), kind.spec_cell_offsets(rotation as nat), x as int, y as int),
{
    let offsets = kind.cell_offsets(rotation);
    let ghost offs = offsets@;
    proof {
        crate::ai::pathfinding::explore::lemma_offsets_shape(*kind, rotation as nat);
    }
    let mut i: usize = 0;
    while i < offsets.len()
        invariant
            0 <= i <= offs.len(),
            offs == offsets@,
            offs == kind.spec_cell_offsets(rotation as nat),
            offs.len() == 3,
            forall|k: int| 0 <= k < 3 ==> 0 <= #[trigger] offs[k].0 <= 2 && 0 <= offs[k].1 <= 2,
            x <= i32::MAX - 2,
            i32::MIN + 1 <= y <= i32::MAX - 2,
            forall|k: int| 0 <= k < i ==> !occupied(board.grid(), x + #[trigger] offs[k].0, y + offs[k].1 - 1),
        decreases offsets.len() - i,
    {
        let (dx, dy) = offsets[i];
        if board.is_occupied(x + dx, y + dy - 1) {
            assert(occupied(board.grid(), x + offs[i as int].0, y + offs[i as int].1 - 1));
            return true;
        }
        i += 1;
    }
    false
}

/// Some cell of the piece at `(x, y)` is a cell of a falling piece other than `this`.
pub open spec fn hits_other_falling(
    offs: Seq<(i32, i32)>,
    x: int,
    y: int,
    this: u64,
    falling: Seq<(u64, Vec<(i32, i32)>)>,
) -> bool {
    exists|i: int| 0 <= i < offs.len() && taken_by_other(falling, this, x + #[trigger] offs[i].0, y + offs[i].1)
}

/// Whether the piece at `(x, y)` would overlap a falling piece other than `this_entity`.
pub fn overlaps_other_falling(
    kind: &TrominoKind,
    rotation: usize,
    x: i32,
    y: i32,
    this_entity: u64,
    current_falling: &[(u64, Vec<(i32, i32)>)],
) -> (r: bool)
    requires
        x <= i32::MAX - 2,
        y <= i32::MAX - 2,
    ensures
        r == hits_other_falling(kind.spec_cell_offsets(rotation as nat), x as int, y as int, this_entity, current_falling@),
{
    let offsets = kind.cell_offsets(rotation);
    let ghost offs = offsets@;
    proof {
        crate::ai::pathfinding::explore::lemma_offsets_shape(*kind, rotation as nat);
    }
    let mut i: usize = 0;
    while i < offsets.len()
        invariant
            0 <= i <= offs.len(),
            offs == offsets@,
            offs == kind.spec_cell_offsets(rotation as nat),
            offs.len() == 3,
            forall|k: int| 0 <= k < 3 ==> 0 <= #[trigger] offs[k].0 <= 2 && 0 <= offs[k].1 <= 2,
            x <= i32::MAX - 2,
            y <= i32::MAX - 2,
            forall|k: int| 0 <= k < i ==> !taken_by_other(current_falling@, this_entity, x + #[trigger] offs[k].0, y + offs[k].1),
        decreases offsets.len() - i,
    {
        let (dx, dy) = offsets[i];
        if cell_taken(this_entity, current_falling, x + dx, y + dy) {
            assert(taken_by_other(current_falling@, this_entity, x + offs[i as int].0, y + offs[i as int].1));
            return true;
        }
        i += 1;
    }
    false
}

/// Whether a falling piece should search for a new target: never once it
/// rests on the ground; otherwise when its target no longer fits, the field
/// changed since it planned, or its periodic replanning is due.
pub fn should_replan(
    board: &GlobalBoard,
    kind: &TrominoKind,
    target_rotation: usize,
    target_x: i32,
    landing_y: i32,
    planned_board_version: u64,
    is_on_ground: bool,
    replan_due: bool,
) -> (r: bool)
    requires
        target_x <= i32::MAX - 2,
        landing_y <= i32::MAX - 2,
    ensures
        r == (!is_on_ground && (!piece_fits(board.grid(), kind.spec_cell_offsets(target_rotation as nat), target_x as int, landing_y as int)
            || planned_board_version != board.board_version || replan_due)),
{
    let target_invalidated = !board.can_place(kind, target_rotation, target_x, landing_y);
    let board_changed = planned_board_version != board.board_version;
    !is_on_ground && (target_invalidated || board_changed || replan_due)
}

/// The piece at column `x` lies within the columns of lane `lane_id`.
pub open spec fn within_lane(offs: Seq<(i32, i32)>, lane_id: int, x: int) -> bool {
    x + crate::ai::pathfinding::model::min_dx(offs) >= spec_lane_x_range(lane_id).0 && x
        + crate::ai::pathfinding::model::max_dx(offs) <= spec_lane_x_range(lane_id).1
}

/// Whether the piece in `rotation` at column `x` stays within lane `lane_id`'s columns.
pub fn inside_lane_slot(kind: &TrominoKind, rotation: usize, lane_id: usize, x: i32) -> (r: bool)
    requires
        lane_id < LANE_COUNT,
        x <= i32::MAX - 2,
    ensures
        r == within_lane(kind.spec_cell_offsets(rotation as nat), lane_id as int, x as int),
{
    let (lane_min_x, lane_max_x) = crate::board::lane_x_range(lane_id);
    let offsets = kind.cell_offsets(rotation);
    proof {
        crate::ai::pathfinding::explore::lemma_offsets_shape(*kind, rotation as nat);
    }
    let (min_dx, max_dx, _) = crate::ai::pathfinding::spawn_drop::offset_extents(&offsets);
    x + min_dx >= lane_min_x as i32 && x + max_dx <= lane_max_x as i32
}

/// How locking a landed piece went.
#[derive(Debug, Clone, Copy, PartialEq, Eq, Structural)]
pub enum LockOutcome {
    /// The piece does not fit where it stands; nothing changed.
    Blocked,
    /// The piece was locked but reaches above the top row; its lane is stuck.
    AboveCeiling,
    /// The piece was locked inside the field and this many rows were cleared.
    Locked(usize),
}

/// Locks the landed piece of lane `lane_id` at `(x, y)`: when it does not fit
/// nothing happens; otherwise it is locked (see `lock_tromino`), and when it
/// lies inside the field the full rows are cleared (see `clear_full_lines`).
pub fn lock_landed_piece(board: &mut GlobalBoard, lane_id: usize, kind: &TrominoKind, rotation: usize, x: i32, y: i32) -> (r: LockOutcome)
    requires
        x <= i32::MAX - 2,
        y <= i32::MAX - 2,
        piece_fits(old(board).grid(), kind.spec_cell_offsets(rotation as nat), x as int, y as int) ==> lock_and_clear_fit(
            *old(board),
            kind.spec_cell_offsets(rotation as nat),
            x as int,
            y as int,
        ),
    ensures
        ({
            let offs = kind.spec_cell_offsets(rotation as nat);
            match r {
                LockOutcome::Blocked => {
                    &&& !piece_fits(old(board).grid(), offs, x as int, y as int)
                    &&& *final(board) == *old(board)
                },
                LockOutcome::AboveCeiling => {
                    &&& piece_fits(old(board).grid(), offs, x as int, y as int)
                    &&& locked_as_specified(*old(board), *final(board), lane_id, offs, x as int, y as int, false)
                },
                LockOutcome::Locked(lines) => {
                    &&& piece_fits(old(board).grid(), offs, x as int, y as int)
                    &&& exists|mid: GlobalBoard|
                        locked_as_specified(*old(board), mid, lane_id, offs, x as int, y as int, true)
                            && #[trigger] cleared_as_specified(mid, *final(board)) && lines == full_cell_rows(mid.cells).len()
                },
            }
        }),
{
    if !board.can_place(kind, rotation, x, y) {
        return LockOutcome::Blocked;
    }
    let ghost before = *board;
    let locked = board.lock_tromino(lane_id, kind, rotation, x, y);
    if !locked {
        return LockOutcome::AboveCeiling;
    }
    let ghost mid = *board;
    proof {
        crate::board::line_clear::lemma_full_cell_rows(mid);
    }
    let lines = board.clear_full_lines();
    assert(cleared_as_specified(mid, *board));
    LockOutcome::Locked(lines)
}

/// Whether locking the piece at `(x, y)` into `board` and clearing the full
/// rows keeps the score and the line count within `u32`.
pub fn lock_fits_counters(board: &GlobalBoard, kind: &TrominoKind, rotation: usize, x: i32, y: i32) -> (r: bool)
    requires
        x <= i32::MAX - 2,
        y <= i32::MAX - 2,
    ensures
        r == lock_and_clear_fit(*board, kind.spec_cell_offsets(rotation as nat), x as int, y as int),
{
    let ghost offs = kind.spec_cell_offsets(rotation as nat);
    let mut probe = board.to_compact();
    let inside = probe.lock_tromino(kind, rotation, x, y);
    proof {
        crate::board::model::lemma_kept_full_len(
            crate::board::rows::grid_locked(board.grid(), offs, x as int, y as int),
            crate::board::rows::grid_full_pred(),
            crate::config::LANE_HEIGHT as int,
        );
    }
    let n = probe.clear_full_lines();
    let score: u64 = if inside { board.score as u64 + 10 } else { board.score as u64 };
    let points: u64 = if n == 1 {
        300
    } else if n == 2 {
        800
    } else if n == 3 {
        1800
    } else {
        n as u64 * 500
    };
    score + points <= u32::MAX as u64 && board.lines_cleared as u64 + n as u64 <= u32::MAX as u64
}

} // verus!
