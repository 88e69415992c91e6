//! Landing search for a piece entering the field through its lane's spawn slot.

use vstd::prelude::*;
use super::common::{can_place_check, reconstruct_waypoints, SearchTree};
use super::explore::{bfs_tree, explore, lemma_fits_bounds, lemma_offsets_shape, lemma_rev_tree_path, rules_of};
use super::model::{fits_clear, max_dx, max_dy, min_dx, raw_path, tree_path, turning_points, DropRules};
use crate::board::{lane_x_range, spec_lane_x_range, GlobalBoard};
use crate::config::{LANE_COUNT, LANE_HEIGHT, SPAWN_WALL_MIN_Y};
use crate::tromino::TrominoKind;

verus! {

/// Row reached by dropping the piece straight down from `(x, y)`.
pub open spec fn drop_from(rules: DropRules, x: int, y: int) -> int
    decreases y,
{
    if y > 0 && rules.fits(x, y - 1) {
        drop_from(rules, x, y - 1)
    } else {
        y
    }
}

/// The piece placed at column `target_x` lies entirely inside the lane's columns.
pub open spec fn inside_slot(offs: Seq<(i32, i32)>, lane_id: int, target_x: int) -> bool {
    target_x + min_dx(offs) >= spec_lane_x_range(lane_id).0 && target_x + max_dx(offs) <= spec_lane_x_range(
        lane_id,
    ).1
}

/// Row from which a piece leaving its lane starts to move sideways: the highest
/// row at which the whole piece is below the spawn walls.
pub open spec fn wall_clear_row(offs: Seq<(i32, i32)>) -> int {
    (SPAWN_WALL_MIN_Y - 1) - max_dy(offs)
}

/// Row from which the straight drop to `target_x` starts: the top row when the
/// target lies inside the lane, otherwise the row below the spawn walls.
pub open spec fn direct_start_row(offs: Seq<(i32, i32)>, lane_id: int, target_x: int) -> int {
    if inside_slot(offs, lane_id, target_x) {
        LANE_HEIGHT - 1
    } else {
        wall_clear_row(offs)
    }
}

/// Landing row of the straight drop from the spawn slot of `lane_id` to column
/// `target_x`: the piece shifts sideways at the start row from the slot's first
/// column to the target (every column on the way must fit), then falls as far
/// as it can.
pub open spec fn spec_direct_drop(
    board: GlobalBoard,
    lane_id: int,
    kind: TrominoKind,
    rot: nat,
    target_x: int,
    reserved: Seq<(i32, i32)>,
) -> Option<int> {
    let offs = kind.spec_cell_offsets(rot);
    let rules = rules_of(board, kind, rot, reserved, None);
    let spawn_x = spec_lane_x_range(lane_id).0;
    let sy = direct_start_row(offs, lane_id, target_x);
    if sy < 0 {
        None
    } else if exists|px: int|
        vstd::math::min(spawn_x, target_x) <= px <= vstd::math::max(spawn_x, target_x) && !#[trigger] rules.fits(
            px,
            sy,
        ) {
        None
    } else if rules.fits(target_x, drop_from(rules, target_x, sy)) {
        Some(drop_from(rules, target_x, sy))
    } else {
        None
    }
}

/// Smallest and largest horizontal offsets and largest vertical offset of a shape.
pub fn offset_extents(offsets: &Vec<(i32, i32)>) -> (r: (i32, i32, i32))
    requires
        offsets@.len() == 3,
    ensures
        r.0 == min_dx(offsets@),
        r.1 == max_dx(offsets@),
        r.2 == max_dy(offsets@),
{
    let a = offsets[0];
    let b = offsets[1];
    let c = offsets[2];
    let mut min_dx_v = a.0;
    if b.0 < min_dx_v {
        min_dx_v = b.0;
    }
    if c.0 < min_dx_v {
        min_dx_v = c.0;
    }
    let mut max_dx_v = a.0;
    if b.0 > max_dx_v {
        max_dx_v = b.0;
    }
    if c.0 > max_dx_v {
        max_dx_v = c.0;
    }
    let mut max_dy_v = a.1;
    if b.1 > max_dy_v {
        max_dy_v = b.1;
    }
    if c.1 > max_dy_v {
        max_dy_v = c.1;
    }
    (min_dx_v, max_dx_v, max_dy_v)
}

/// Whether the piece fits at every column `x` in `lo..=hi` of row `y`.
fn row_clear(
    board: &GlobalBoard,
    kind: &TrominoKind,
    rot: usize,
    y: i32,
    lo: i32,
    hi: i32,
    reserved: &[(i32, i32)],
) -> (r: bool)
    requires
        hi <= i32::MAX - 2,
        y <= i32::MAX - 2,
    ensures
        r == (forall|x: int| lo <= x <= hi ==> #[trigger] rules_of(*board, *kind, rot as nat, reserved@, None).fits(x, y as int)),
{
    let ghost rules = rules_of(*board, *kind, rot as nat, reserved@, None);
    if lo > hi {
        return true;
    }
    let mut x = lo;
    while x <= hi
        invariant
            lo <= x <= hi + 1,
            hi <= i32::MAX - 2,
            y <= i32::MAX - 2,
            rules == rules_of(*board, *kind, rot as nat, reserved@, None),
            forall|xx: int| lo <= xx < x ==> #[trigger] rules.fits(xx, y as int),
        decreases hi + 1 - x,
    {
        if !can_place_check(board, kind, rot, x, y, reserved) {
            assert(!rules.fits(x as int, y as int));
            return false;
        }
        x += 1;
    }
    true
}

/// Whether the piece fits at every row `y` in `lo..=hi` of column `x`.
fn column_clear(
    board: &GlobalBoard,
    kind: &TrominoKind,
    rot: usize,
    x: i32,
    lo: i32,
    hi: i32,
    reserved: &[(i32, i32)],
    slot: Option<(i32, i32)>,
) -> (r: bool)
    requires
        x <= i32::MAX - 2,
        hi <= i32::MAX - 2,
        lo > i32::MIN,
    ensures
        r == (forall|y: int| lo <= y <= hi ==> #[trigger] rules_of(*board, *kind, rot as nat, reserved@, slot).fits(x as int, y)),
{
    let ghost rules = rules_of(*board, *kind, rot as nat, reserved@, slot);
    if lo > hi {
        return true;
    }
    let mut y = hi;
    while y >= lo
        invariant
            lo - 1 <= y <= hi,
            lo > i32::MIN,
            x <= i32::MAX - 2,
            hi <= i32::MAX - 2,
            rules == rules_of(*board, *kind, rot as nat, reserved@, slot),
            forall|yy: int| y < yy <= hi ==> #[trigger] rules.fits(x as int, yy),
        decreases y - lo + 1,
    {
        if !can_place_check(board, kind, rot, x, y, reserved) {
            assert(!rules.fits(x as int, y as int));
            return false;
        }
        y -= 1;
    }
    true
}

/// Row reached by dropping the piece straight down from `(x, y)`.
fn drop_down(
    board: &GlobalBoard,
    kind: &TrominoKind,
    rot: usize,
    x: i32,
    y: i32,
    reserved: &[(i32, i32)],
) -> (r: i32)
    requires
        x <= i32::MAX - 2,
        0 <= y <= i32::MAX - 2,
    ensures
        r == drop_from(rules_of(*board, *kind, rot as nat, reserved@, None), x as int, y as int),
        0 <= r <= y,
{
    let ghost rules = rules_of(*board, *kind, rot as nat, reserved@, None);
    let mut cur = y;
    while cur > 0 && can_place_check(board, kind, rot, x, cur - 1, reserved)
        invariant
            0 <= cur <= y,
            x <= i32::MAX - 2,
            y <= i32::MAX - 2,
            rules == rules_of(*board, *kind, rot as nat, reserved@, None),
            drop_from(rules, x as int, cur as int) == drop_from(rules, x as int, y as int),
        decreases cur,
    {
        cur -= 1;
    }
    cur
}

/// Straight drop from the spawn slot of `lane_id` to column `target_x`; `None`
/// when the sideways shift at the start row is blocked.
pub fn simulate_direct_drop(
    board: &GlobalBoard,
    lane_id: usize,
    kind: &TrominoKind,
    rot: usize,
    target_x: i32,
    reserved_landing_cells: &[(i32, i32)],
) -> (r: Option<i32>)
    requires
        lane_id < LANE_COUNT,
        target_x <= i32::MAX - 2,
    ensures
        r is Some <==> spec_direct_drop(*board, lane_id as int, *kind, rot as nat, target_x as int, reserved_landing_cells@) is Some,
        r matches Some(y) ==> spec_direct_drop(*board, lane_id as int, *kind, rot as nat, target_x as int, reserved_landing_cells@) == Some(y as int),
        r matches Some(y) ==> 0 <= y < LANE_HEIGHT,
{
    let ghost offs = kind.spec_cell_offsets(rot as nat);
    let ghost rules = rules_of(*board, *kind, rot as nat, reserved_landing_cells@, None);
    proof {
        lemma_offsets_shape(*kind, rot as nat);
    }
    let (lane_min_x, lane_max_x) = lane_x_range(lane_id);
    let start_y = (LANE_HEIGHT - 1) as i32;
    let spawn_x = lane_min_x as i32;

    let offsets = kind.cell_offsets(rot);
    let (min_dx_v, max_dx_v, max_dy_v) = offset_extents(&offsets);

    let block_min_x = target_x + min_dx_v;
    let block_max_x = target_x + max_dx_v;
    let is_inside_slot = block_min_x >= lane_min_x as i32 && block_max_x <= lane_max_x as i32;
    let sim_start_y = if is_inside_slot {
        start_y
    } else {
        (SPAWN_WALL_MIN_Y as i32 - 1) - max_dy_v
    };
    assert(sim_start_y == direct_start_row(offs, lane_id as int, target_x as int));
    if sim_start_y < 0 {
        return None;
    }
    let min_step_x = if spawn_x < target_x { spawn_x } else { target_x };
    let max_step_x = if spawn_x < target_x { target_x } else { spawn_x };
    if !row_clear(board, kind, rot, sim_start_y, min_step_x, max_step_x, reserved_landing_cells) {
        return None;
    }
    let y = drop_down(board, kind, rot, target_x, sim_start_y, reserved_landing_cells);
    if !can_place_check(board, kind, rot, target_x, y, reserved_landing_cells) {
        return None;
    }
    Some(y)
}

/// `w` are the waypoints of a legal move sequence from `start` to `t`.
pub open spec fn legal_route(rules: DropRules, start: (i32, i32), t: (i32, i32), w: Seq<(i32, i32)>) -> bool {
    exists|p: Seq<(i32, i32)>| #[trigger] rules.is_path(p) && p[0] == start && p.last() == t && w == turning_points(p)
}

/// Waypoints of the route to `t` that the breadth-first search from `start`
/// records (the target alone when the search never reaches it).
pub open spec fn search_waypoints(rules: DropRules, start: (i32, i32), t: (i32, i32)) -> Seq<(i32, i32)> {
    turning_points(raw_path(bfs_tree(rules, start).0, bfs_tree(rules, start).1, t))
}

/// The search's own resting row is the answer: it exists and no straight drop lands lower.
pub open spec fn search_row_wins(bfs: Option<i32>, direct: Option<int>) -> bool {
    bfs matches Some(b) && (direct is None || b <= direct->0)
}

/// Waypoints for reaching `(target_x, best_y)` along a search tree whose paths
/// are legal move sequences from `start`.
pub fn route_waypoints(
    tree: &SearchTree,
    target_x: i32,
    best_y: i32,
    Ghost(rules): Ghost<DropRules>,
    Ghost(start): Ghost<(i32, i32)>,
) -> (w: Vec<(i32, i32)>)
    requires
        tree.wf(),
        forall|i: int|
            0 <= i < tree.nodes@.len() ==> {
                let p = #[trigger] tree_path(tree.nodes@, tree.parents@, i);
                &&& rules.is_path(p)
                &&& p[0] == start
                &&& p.last() == tree.nodes@[i]
            },
    ensures
        tree.nodes@.contains((target_x, best_y)) ==> legal_route(rules, start, (target_x, best_y), w@),
        w@ == turning_points(raw_path(tree.nodes@, tree.parents@, (target_x, best_y))),
{
    let waypoints = reconstruct_waypoints(tree, target_x, best_y);
    proof {
        let ns = tree.nodes@;
        let ps = tree.parents@;
        let t = (target_x, best_y);
        let p = raw_path(ns, ps, t);
        if ns.contains(t) {
            let k = ns.index_of(t);
            lemma_rev_tree_path(ns, ps, k);
            assert(tree_path(ns, ps, k) == p);
            assert(rules.is_path(p) && p[0] == start && p.last() == t);
            assert(waypoints@ == turning_points(p));
            assert(legal_route(rules, start, t, waypoints@));
        }
    }
    waypoints
}

/// The row the spawn search picks: the lower of the search's resting row and
/// the straight drop's row, whichever exist.
pub open spec fn best_landing(bfs: Option<i32>, direct: Option<int>) -> Option<int> {
    match (bfs, direct) {
        (Some(a), Some(b)) => Some(vstd::math::min(a as int, b)),
        (Some(a), None) => Some(a as int),
        (None, Some(b)) => Some(b),
        (None, None) => None,
    }
}

/// Rules of the spawn search from `lane_id`: sideways moves in the spawn band
/// stay within the lane's columns.
pub open spec fn spawn_rules(
    board: GlobalBoard,
    lane_id: int,
    kind: TrominoKind,
    rot: nat,
    reserved: Seq<(i32, i32)>,
) -> DropRules {
    rules_of(
        board,
        kind,
        rot,
        reserved,
        Some((spec_lane_x_range(lane_id).0 as i32, spec_lane_x_range(lane_id).1 as i32)),
    )
}

/// The spawn entrance of `lane_id` is open for the piece in its starting rotation,
/// and the slot column is free from the top row down to the search's start row.
pub open spec fn spawn_open(
    board: GlobalBoard,
    lane_id: int,
    kind: TrominoKind,
    rot: nat,
    reserved: Seq<(i32, i32)>,
    air_obstacles: Seq<(i32, i32)>,
) -> bool {
    let spawn_x = spec_lane_x_range(lane_id).0;
    let rules = spawn_rules(board, lane_id, kind, rot, reserved);
    &&& fits_clear(board.grid(), kind.spec_cell_offsets(kind.spec_initial_rotation()), air_obstacles, spawn_x, LANE_HEIGHT - 1)
    &&& wall_clear_row(kind.spec_cell_offsets(rot)) >= 0
    &&& forall|y: int| wall_clear_row(kind.spec_cell_offsets(rot)) <= y <= LANE_HEIGHT - 1 ==> #[trigger] rules.fits(spawn_x, y)
}

/// Landing row the spawn search finds, if any.
pub open spec fn spawn_landing_row(
    board: GlobalBoard,
    lane_id: int,
    kind: TrominoKind,
    rot: nat,
    target_x: i32,
    reserved: Seq<(i32, i32)>,
    air_obstacles: Seq<(i32, i32)>,
) -> Option<int> {
    let offs = kind.spec_cell_offsets(rot);
    let rules = spawn_rules(board, lane_id, kind, rot, reserved);
    let start = (spec_lane_x_range(lane_id).0 as i32, wall_clear_row(offs) as i32);
    if spawn_open(board, lane_id, kind, rot, reserved, air_obstacles) {
        best_landing(rules.lowest_rest(start, target_x), spec_direct_drop(board, lane_id, kind, rot, target_x as int, reserved))
    } else {
        None
    }
}

/// Outcome of the spawn search: `None` exactly when the entrance or the slot
/// column is blocked or no landing row exists; otherwise the lowest landing row
/// together with the waypoints of the route to it that the breadth-first
/// search records (a legal route whenever the search's row is the answer), or
/// of the straight drop when the search finds no row.
pub open spec fn spawn_search_result(
    board: GlobalBoard,
    lane_id: int,
    kind: TrominoKind,
    rot: nat,
    target_x: i32,
    reserved: Seq<(i32, i32)>,
    air_obstacles: Seq<(i32, i32)>,
    r: Option<(i32, Seq<(i32, i32)>)>,
) -> bool {
    let offs = kind.spec_cell_offsets(rot);
    let rules = spawn_rules(board, lane_id, kind, rot, reserved);
    let start = (spec_lane_x_range(lane_id).0 as i32, wall_clear_row(offs) as i32);
    let bfs = rules.lowest_rest(start, target_x);
    let direct = spec_direct_drop(board, lane_id, kind, rot, target_x as int, reserved);
    let open = spawn_open(board, lane_id, kind, rot, reserved, air_obstacles);
    &&& r is None <==> (!open || best_landing(bfs, direct) is None)
    &&& r matches Some((y, w)) ==> {
        &&& best_landing(bfs, direct) == Some(y as int)
        &&& search_row_wins(bfs, direct) ==> legal_route(rules, start, (target_x, y), w)
        &&& bfs is Some ==> w == search_waypoints(rules, start, (target_x, y))
        &&& bfs is None ==> w == (if inside_slot(offs, lane_id, target_x as int) {
            seq![(target_x, y)]
        } else {
            seq![(target_x, wall_clear_row(offs) as i32), (target_x, y)]
        })
    }
}

/// Search from the spawn slot of `lane_id` for the lowest row at which the piece
/// can come to rest in column `target_x`, moving down and sideways (staying in
/// its lane while in the spawn band) around the field and the reserved cells.
/// Returns the row and the waypoints of the route.
#[verifier::rlimit(60)]
pub fn simulate_drop_with_tuck_path(
    board: &GlobalBoard,
    lane_id: usize,
    kind: &TrominoKind,
    rot: usize,
    target_x: i32,
    reserved_landing_cells: &[(i32, i32)],
    air_obstacles: &[(i32, i32)],
) -> (r: Option<(i32, Vec<(i32, i32)>)>)
    requires
        lane_id < LANE_COUNT,
        target_x <= i32::MAX - 2,
    ensures
        spawn_search_result(
            *board,
            lane_id as int,
            *kind,
            rot as nat,
            target_x,
            reserved_landing_cells@,
            air_obstacles@,
            match r {
                Some((y, w)) => Some((y, w@)),
                None => None,
            },
        ),
{
    let ghost offs = kind.spec_cell_offsets(rot as nat);
    let ghost rules = spawn_rules(*board, lane_id as int, *kind, rot as nat, reserved_landing_cells@);
    proof {
        lemma_offsets_shape(*kind, rot as nat);
    }
    let (lane_min_x, lane_max_x) = lane_x_range(lane_id);
    let start_y = (LANE_HEIGHT - 1) as i32;
    let spawn_x = lane_min_x as i32;

    let initial_rotation = kind.initial_rotation();
    if !can_place_check(board, kind, initial_rotation, spawn_x, start_y, air_obstacles) {
        return None;
    }

    let direct_y_opt = simulate_direct_drop(board, lane_id, kind, rot, target_x, reserved_landing_cells);

    let offsets = kind.cell_offsets(rot);
    let (min_dx_v, max_dx_v, max_dy_v) = offset_extents(&offsets);

    let sim_start_y = (SPAWN_WALL_MIN_Y as i32 - 1) - max_dy_v;
    if sim_start_y < 0 {
        return None;
    }

    let slot = Some((lane_min_x as i32, lane_max_x as i32));
    if !column_clear(board, kind, rot, spawn_x, sim_start_y, start_y, reserved_landing_cells, slot) {
        return None;
    }

    assert(rules == rules_of(*board, *kind, rot as nat, reserved_landing_cells@, slot));
    assert(rules.fits(spawn_x as int, sim_start_y as int));
    let (lowest_target_y, tree) = explore(
        board,
        kind,
        rot,
        reserved_landing_cells,
        slot,
        (spawn_x, sim_start_y),
        target_x,
        min_dx_v,
        max_dx_v,
        max_dy_v,
    );

    let best_y = match (lowest_target_y, direct_y_opt) {
        (Some(bfs_y), Some(dir_y)) => if bfs_y < dir_y { bfs_y } else { dir_y },
        (Some(bfs_y), None) => bfs_y,
        (None, Some(dir_y)) => {
            let block_min_x = target_x + min_dx_v;
            let block_max_x = target_x + max_dx_v;
            let is_inside_slot = block_min_x >= lane_min_x as i32 && block_max_x <= lane_max_x as i32;
            let wps = if is_inside_slot {
                vec![(target_x, dir_y)]
            } else {
                let wall_clear_y = (SPAWN_WALL_MIN_Y as i32 - 1) - max_dy_v;
                vec![(target_x, wall_clear_y), (target_x, dir_y)]
            };
            proof {
                let start = (spec_lane_x_range(lane_id as int).0 as i32, wall_clear_row(offs) as i32);
                assert(start == (spawn_x, sim_start_y));
                assert(lowest_target_y == rules.lowest_rest(start, target_x));
                if is_inside_slot {
                    assert(wps@ =~= seq![(target_x, dir_y)]);
                } else {
                    assert(wps@ =~= seq![(target_x, wall_clear_row(offs) as i32), (target_x, dir_y)]);
                }
                assert(is_inside_slot == inside_slot(offs, lane_id as int, target_x as int));
            }
            return Some((dir_y, wps));
        },
        (None, None) => {
            return None;
        },
    };

    let waypoints = route_waypoints(&tree, target_x, best_y, Ghost(rules), Ghost((spawn_x, sim_start_y)));
    proof {
        let start = (spec_lane_x_range(lane_id as int).0 as i32, wall_clear_row(offs) as i32);
        assert(start == (spawn_x, sim_start_y));
        assert(lowest_target_y == rules.lowest_rest(start, target_x));
        assert(spawn_open(*board, lane_id as int, *kind, rot as nat, reserved_landing_cells@, air_obstacles@));
        assert(best_landing(lowest_target_y, spec_direct_drop(*board, lane_id as int, *kind, rot as nat, target_x as int, reserved_landing_cells@)) == Some(best_y as int));
        assert(lowest_target_y is Some);
    }
    Some((best_y, waypoints))
}

} // verus!
