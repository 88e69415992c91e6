//! Landing search for a piece already falling in open air.

use vstd::prelude::*;
use super::common::can_place_check;
use super::explore::{explore, lemma_offsets_shape, rules_of};
use super::model::{max_dx, min_dx, turning_points, DropRules};
use super::spawn_drop::{best_landing, drop_from, legal_route, offset_extents, route_waypoints, search_row_wins, search_waypoints};
use crate::board::GlobalBoard;
use crate::config::TOTAL_GRID_WIDTH;
use crate::tromino::TrominoKind;

verus! {

/// Shifts tried, in order, when the piece does not fit where it is after rotating.
pub open spec fn kick_offsets() -> Seq<(int, int)> {
    seq![(0, 0), (-1, 0), (1, 0), (0, 1), (-1, 1), (1, 1), (0, -1)]
}

/// Kick `k` moves the piece from `(sx, sy)` to a fitting position inside the side walls and above the floor.
pub open spec fn kick_ok(rules: DropRules, sx: int, sy: int, k: int) -> bool {
    let tx = sx + kick_offsets()[k].0;
    let ty = sy + kick_offsets()[k].1;
    &&& tx >= -min_dx(rules.offsets)
    &&& tx + max_dx(rules.offsets) < TOTAL_GRID_WIDTH
    &&& ty >= 0
    &&& rules.fits(tx, ty)
}

/// Position given by the first working kick from index `k` on.
pub open spec fn first_kick_from(rules: DropRules, sx: int, sy: int, k: int) -> Option<(i32, i32)>
    decreases 7 - k,
{
    if k < 0 || k >= 7 {
        None
    } else if kick_ok(rules, sx, sy, k) {
        Some(((sx + kick_offsets()[k].0) as i32, (sy + kick_offsets()[k].1) as i32))
    } else {
        first_kick_from(rules, sx, sy, k + 1)
    }
}

pub proof fn lemma_first_kick(rules: DropRules, sx: int, sy: int, k: int)
    requires
        i32::MIN < sx < i32::MAX,
        i32::MIN < sy < i32::MAX,
    ensures
        first_kick_from(rules, sx, sy, k) matches Some(p) ==> rules.fits(p.0 as int, p.1 as int)
            && sx - 1 <= p.0 <= sx + 1 && sy - 1 <= p.1 <= sy + 1,
    decreases 7 - k,
{
    if 0 <= k < 7 && !kick_ok(rules, sx, sy, k) {
        lemma_first_kick(rules, sx, sy, k + 1);
    }
}

/// Where the search starts: the current position if the piece fits there,
/// otherwise the first working kick.
pub open spec fn aerial_start(rules: DropRules, sx: int, sy: int) -> Option<(i32, i32)> {
    if rules.fits(sx, sy) {
        Some((sx as i32, sy as i32))
    } else {
        first_kick_from(rules, sx, sy, 0)
    }
}

/// Row reached by dropping straight down, when the piece already stands in the target column.
pub open spec fn aerial_direct(rules: DropRules, sx: int, sy: int, target_x: int) -> Option<int> {
    if sx == target_x && rules.fits(target_x, sy) && rules.fits(target_x, drop_from(rules, target_x, sy)) {
        Some(drop_from(rules, target_x, sy))
    } else {
        None
    }
}

/// Outcome of the in-air search: `None` exactly when neither the position nor
/// any kick fits, or no landing row exists; otherwise the lowest landing row and
/// the waypoints of the route to it that the breadth-first search records (a
/// legal route whenever the search's row is the answer), or the target alone
/// for a straight drop the search does not reach.
pub open spec fn aerial_search_result(
    board: GlobalBoard,
    kind: TrominoKind,
    rot: nat,
    sx: i32,
    sy: i32,
    target_x: i32,
    reserved: Seq<(i32, i32)>,
    r: Option<(i32, Seq<(i32, i32)>)>,
) -> bool {
    let rules = rules_of(board, kind, rot, reserved, None);
    let direct = aerial_direct(rules, sx as int, sy as int, target_x as int);
    match aerial_start(rules, sx as int, sy as int) {
        None => r is None,
        Some(start) => {
            let bfs = rules.lowest_rest(start, target_x);
            &&& r is None <==> best_landing(bfs, direct) is None
            &&& r matches Some((y, w)) ==> {
                &&& best_landing(bfs, direct) == Some(y as int)
                &&& search_row_wins(bfs, direct) ==> legal_route(rules, start, (target_x, y), w)
                &&& bfs is Some ==> w == search_waypoints(rules, start, (target_x, y))
                &&& bfs is None ==> w == seq![(target_x, y)]
            }
        },
    }
}

/// Kicks as executable values.
fn kick_at(k: usize) -> (r: (i32, i32))
    requires
        k < 7,
    ensures
        r.0 == kick_offsets()[k as int].0,
        r.1 == kick_offsets()[k as int].1,
{
    if k == 0 {
        (0, 0)
    } else if k == 1 {
        (-1, 0)
    } else if k == 2 {
        (1, 0)
    } else if k == 3 {
        (0, 1)
    } else if k == 4 {
        (-1, 1)
    } else if k == 5 {
        (1, 1)
    } else {
        (0, -1)
    }
}

/// Search from the piece's position `(start_x, start_y)` in open air for the
/// lowest row at which it can come to rest in column `target_x` in rotation
/// `to_rot`, moving down and sideways around the field and the reserved cells.
/// Returns the row and the waypoints of the route.
#[verifier::rlimit(60)]
pub fn simulate_drop_from_path(
    board: &GlobalBoard,
    kind: &TrominoKind,
    _from_rot: usize,
    to_rot: usize,
    start_x: i32,
    start_y: i32,
    target_x: i32,
    reserved_landing_cells: &[(i32, i32)],
) -> (r: Option<(i32, Vec<(i32, i32)>)>)
    requires
        i32::MIN < start_x <= i32::MAX - 3,
        i32::MIN < start_y <= i32::MAX - 4,
        target_x <= i32::MAX - 2,
    ensures
        aerial_search_result(
            *board,
            *kind,
            to_rot as nat,
            start_x,
            start_y,
            target_x,
            reserved_landing_cells@,
            match r {
                Some((y, w)) => Some((y, w@)),
                None => None,
            },
        ),
{
    let ghost rules = rules_of(*board, *kind, to_rot as nat, reserved_landing_cells@, None);
    proof {
        lemma_offsets_shape(*kind, to_rot as nat);
    }
    let offsets = kind.cell_offsets(to_rot);
    let (min_dx_v, max_dx_v, max_dy_v) = offset_extents(&offsets);

    // Straight drop when the piece already stands in the target column.
    let mut direct_landing_y: Option<i32> = None;
    if start_x == target_x && can_place_check(board, kind, to_rot, target_x, start_y, reserved_landing_cells) {
        let mut y = start_y;
        while y > 0 && can_place_check(board, kind, to_rot, target_x, y - 1, reserved_landing_cells)
            invariant
                0 <= y <= start_y,
                start_y <= i32::MAX - 4,
                target_x <= i32::MAX - 2,
                rules == rules_of(*board, *kind, to_rot as nat, reserved_landing_cells@, None),
                drop_from(rules, target_x as int, y as int) == drop_from(rules, target_x as int, start_y as int),
            decreases y,
        {
            y -= 1;
        }
        if can_place_check(board, kind, to_rot, target_x, y, reserved_landing_cells) {
            direct_landing_y = Some(y);
        }
    }
    assert(match direct_landing_y {
        Some(d) => aerial_direct(rules, start_x as int, start_y as int, target_x as int) == Some(d as int),
        None => aerial_direct(rules, start_x as int, start_y as int, target_x as int) is None,
    });

    // Starting position: where the piece is, or the first working kick.
    let start: (i32, i32);
    if !can_place_check(board, kind, to_rot, start_x, start_y, reserved_landing_cells) {
        let mut found: Option<(i32, i32)> = None;
        let mut k: usize = 0;
        while k < 7
            invariant_except_break
                found is None,
            invariant
                0 <= k <= 7,
                i32::MIN < start_x <= i32::MAX - 3,
                i32::MIN < start_y <= i32::MAX - 4,
                rules == rules_of(*board, *kind, to_rot as nat, reserved_landing_cells@, None),
                min_dx_v == min_dx(rules.offsets),
                max_dx_v == max_dx(rules.offsets),
                0 <= max_dx_v <= 2,
                first_kick_from(rules, start_x as int, start_y as int, 0) == first_kick_from(
                    rules,
                    start_x as int,
                    start_y as int,
                    k as int,
                ),
            ensures
                found == first_kick_from(rules, start_x as int, start_y as int, 0),
            decreases 7 - k,
        {
            let (kdx, kdy) = kick_at(k);
            let tx = start_x + kdx;
            let ty = start_y + kdy;
            if tx >= -min_dx_v && tx + max_dx_v < TOTAL_GRID_WIDTH as i32 && ty >= 0 && can_place_check(
                board,
                kind,
                to_rot,
                tx,
                ty,
                reserved_landing_cells,
            ) {
                found = Some((tx, ty));
                break;
            }
            k += 1;
        }
        match found {
            Some(p) => {
                start = p;
            },
            None => {
                return None;
            },
        }
    } else {
        start = (start_x, start_y);
    }
    assert(aerial_start(rules, start_x as int, start_y as int) == Some(start));
    proof {
        lemma_first_kick(rules, start_x as int, start_y as int, 0);
        super::explore::lemma_fits_bounds(board.grid(), *kind, to_rot as nat, reserved_landing_cells@, start.0 as int, start.1 as int);
    }

    let (lowest_target_y, tree) = explore(
        board,
        kind,
        to_rot,
        reserved_landing_cells,
        None,
        start,
        target_x,
        min_dx_v,
        max_dx_v,
        max_dy_v,
    );

    let best_y = match (lowest_target_y, direct_landing_y) {
        (Some(bfs_y), Some(dir_y)) => if bfs_y < dir_y { bfs_y } else { dir_y },
        (Some(bfs_y), None) => bfs_y,
        (None, Some(dir_y)) => {
            let wps = vec![(target_x, dir_y)];
            assert(wps@ =~= seq![(target_x, dir_y)]);
            return Some((dir_y, wps));
        },
        (None, None) => {
            return None;
        },
    };

    let waypoints = route_waypoints(&tree, target_x, best_y, Ghost(rules), Ghost(start));
    Some((best_y, waypoints))
}

} // verus!
