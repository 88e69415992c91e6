//! Candidate placements a lane considers, and the pace it picks for itself.

use vstd::prelude::*;
use crate::ai::pathfinding::model::{max_dx, min_dx};
use crate::ai::pathfinding::explore::lemma_offsets_shape;
use crate::ai::pathfinding::spawn_drop::offset_extents;
use crate::board::model::{deepest_hole_of, lane_fill_at_target};
use crate::board::{lane_x_range, spec_lane_x_range, GlobalBoard};
use crate::config::{LANE_COUNT, TOTAL_GRID_WIDTH};
use crate::game::LanePace;
use crate::tromino::TrominoKind;

verus! {

/// The pace a lane picks: soft drop when its dip is uncovered and waiting to be
/// filled, or when at most one of its three cells on the target line is filled
/// (a fill ratio under 35%); otherwise normal.
pub open spec fn pace_rule(target_fill: nat, deepest: Option<(usize, usize, bool)>) -> LanePace {
    if (deepest matches Some((_, _, false))) || target_fill <= 1 {
        LanePace::SoftDrop
    } else {
        LanePace::Normal
    }
}

/// The pace lane `lane_id` picks on its own, from how full its part of the
/// target line is and whether it has an uncovered dip to fill.
pub fn determine_autonomous_pace(board: &GlobalBoard, lane_id: usize) -> (r: LanePace)
    requires
        lane_id < LANE_COUNT,
    ensures
        r == pace_rule(lane_fill_at_target(board.grid(), lane_id as int), deepest_hole_of(board.grid(), lane_id as int)),
{
    let fill = board.lane_fill_count_at_target_line(lane_id);
    let deepest = board.find_lane_deepest_hole(lane_id);
    let has_urgent_hole = match deepest {
        Some((_, _, false)) => true,
        _ => false,
    };
    let r = if has_urgent_hole || fill <= 1 {
        LanePace::SoftDrop
    } else {
        LanePace::Normal
    };
    r
}

/// The placements `(rot, x)` for `x` in `lo..=hi`, in increasing `x`.
pub open spec fn x_run(rot: nat, lo: int, hi: int) -> Seq<(usize, i32)> {
    Seq::new(if hi >= lo { (hi - lo + 1) as nat } else { 0 }, |i: int| (rot as usize, (lo + i) as i32))
}

/// Columns searched for rotation `rot` from the spawn slot: three columns
/// either side of the lane, clipped so the piece stays on the field.
pub open spec fn spawn_bounds(lane_id: int, kind: TrominoKind, rot: nat) -> (int, int) {
    let offs = kind.spec_cell_offsets(rot);
    (
        vstd::math::max(spec_lane_x_range(lane_id).0 - 3, -min_dx(offs)),
        vstd::math::min(spec_lane_x_range(lane_id).1 + 3, TOTAL_GRID_WIDTH - 1 - max_dx(offs)),
    )
}

/// Columns searched for rotation `rot` in open air: the spawn columns, widened
/// to reach at least three columns either side of the piece's column `cur_x`.
pub open spec fn aerial_bounds(lane_id: int, kind: TrominoKind, rot: nat, cur_x: int) -> (int, int) {
    (
        vstd::math::min(spawn_bounds(lane_id, kind, rot).0, cur_x - 3),
        vstd::math::max(spawn_bounds(lane_id, kind, rot).1, cur_x + 3),
    )
}

/// The candidates of the first `n` rotations, rotation by rotation, each over
/// the columns `bounds` gives it.
pub open spec fn candidates_upto(n: nat, bounds: spec_fn(nat) -> (int, int)) -> Seq<(usize, i32)>
    decreases n,
{
    if n == 0 {
        seq![]
    } else {
        candidates_upto((n - 1) as nat, bounds) + x_run((n - 1) as nat, bounds((n - 1) as nat).0, bounds(
            (n - 1) as nat,
        ).1)
    }
}

/// Candidates of the spawn search of `kind` from lane `lane_id`.
pub open spec fn spawn_candidates(lane_id: int, kind: TrominoKind) -> Seq<(usize, i32)> {
    candidates_upto(kind.spec_rotation_count(), |rot: nat| spawn_bounds(lane_id, kind, rot))
}

/// Candidates of the in-air search of `kind` for lane `lane_id` at column `cur_x`.
pub open spec fn aerial_candidates(lane_id: int, kind: TrominoKind, cur_x: int) -> Seq<(usize, i32)> {
    candidates_upto(kind.spec_rotation_count(), |rot: nat| aerial_bounds(lane_id, kind, rot, cur_x))
}

/// Appends `(rot, x)` for every `x` in `lo..=hi`.
fn push_run(candidates: &mut Vec<(usize, i32)>, rot: usize, lo: i32, hi: i32)
    ensures
        final(candidates)@ == old(candidates)@ + x_run(rot as nat, lo as int, hi as int),
{
    let mut x: i64 = lo as i64;
    while x <= hi as i64
        invariant
            lo <= x,
            x <= hi as i64 + 1 || x == lo,
            candidates@ == old(candidates)@ + x_run(rot as nat, lo as int, x - 1),
        decreases hi as i64 + 1 - x,
    {
        candidates.push((rot, x as i32));
        assert(x_run(rot as nat, lo as int, x as int) =~= x_run(rot as nat, lo as int, x - 1).push((rot, x as i32)));
        x += 1;
    }
    assert(x_run(rot as nat, lo as int, x - 1) =~= x_run(rot as nat, lo as int, hi as int));
}

/// The columns searched for rotation `rot`: the spawn bounds, widened around
/// `cur_x` when the piece is in open air there.
fn rotation_bounds(kind: &TrominoKind, lane_id: usize, rot: usize, cur_x: Option<i32>) -> (r: (i32, i32))
    requires
        spec_lane_x_range(lane_id as int).1 + 3 <= i32::MAX,
        cur_x matches Some(c) ==> i32::MIN + 3 <= c <= i32::MAX - 3,
    ensures
        r.0 == (match cur_x {
            None => spawn_bounds(lane_id as int, *kind, rot as nat).0,
            Some(c) => aerial_bounds(lane_id as int, *kind, rot as nat, c as int).0,
        }),
        r.1 == (match cur_x {
            None => spawn_bounds(lane_id as int, *kind, rot as nat).1,
            Some(c) => aerial_bounds(lane_id as int, *kind, rot as nat, c as int).1,
        }),
{
    let (lane_min_x, lane_max_x) = lane_x_range(lane_id);
    let offsets = kind.cell_offsets(rot);
    proof {
        lemma_offsets_shape(*kind, rot as nat);
    }
    let (min_dx_v, max_dx_v, _) = offset_extents(&offsets);
    let lane_lo: i32 = lane_min_x as i32 - 3;
    let lane_hi: i32 = lane_max_x as i32 + 3;
    let mut lo: i32 = if lane_lo > -min_dx_v { lane_lo } else { -min_dx_v };
    let edge: i32 = (TOTAL_GRID_WIDTH as i32 - 1) - max_dx_v;
    let mut hi: i32 = if lane_hi < edge { lane_hi } else { edge };
    match cur_x {
        Some(c) => {
            if c - 3 < lo {
                lo = c - 3;
            }
            if c + 3 > hi {
                hi = c + 3;
            }
        },
        None => {},
    }
    (lo, hi)
}

/// The candidates of every rotation of `kind` in turn, each over the columns
/// `rotation_bounds` gives it.
fn push_candidates(kind: &TrominoKind, lane_id: usize, cur_x: Option<i32>) -> (r: Vec<(usize, i32)>)
    requires
        spec_lane_x_range(lane_id as int).1 + 3 <= i32::MAX,
        cur_x matches Some(c) ==> i32::MIN + 3 <= c <= i32::MAX - 3,
    ensures
        r@ == candidates_upto(
            kind.spec_rotation_count(),
            match cur_x {
                None => |rot: nat| spawn_bounds(lane_id as int, *kind, rot),
                Some(c) => |rot: nat| aerial_bounds(lane_id as int, *kind, rot, c as int),
            },
        ),
{
    let ghost bounds = match cur_x {
        None => |rot: nat| spawn_bounds(lane_id as int, *kind, rot),
        Some(c) => |rot: nat| aerial_bounds(lane_id as int, *kind, rot, c as int),
    };
    let mut candidates: Vec<(usize, i32)> = Vec::new();
    let num_rotations = kind.rotation_count();
    let mut rot: usize = 0;
    while rot < num_rotations
        invariant
            num_rotations == kind.spec_rotation_count(),
            0 <= rot <= num_rotations,
            spec_lane_x_range(lane_id as int).1 + 3 <= i32::MAX,
            cur_x matches Some(c) ==> i32::MIN + 3 <= c <= i32::MAX - 3,
            bounds == (match cur_x {
                None => |rot: nat| spawn_bounds(lane_id as int, *kind, rot),
                Some(c) => |rot: nat| aerial_bounds(lane_id as int, *kind, rot, c as int),
            }),
            candidates@ == candidates_upto(rot as nat, bounds),
        decreases num_rotations - rot,
    {
        let (lo, hi) = rotation_bounds(kind, lane_id, rot, cur_x);
        assert(lo == bounds(rot as nat).0 && hi == bounds(rot as nat).1);
        push_run(&mut candidates, rot, lo, hi);
        rot += 1;
    }
    candidates
}

/// Placements `(rot, x)` searched for a piece spawned in lane `lane_id`:
/// for each rotation in turn, every column from three left of the lane to
/// three right of it that keeps the piece on the field.
pub fn generate_spawn_candidates(lane_id: usize, kind: &TrominoKind) -> (r: Vec<(usize, i32)>)
    requires
        spec_lane_x_range(lane_id as int).1 + 3 <= i32::MAX,
    ensures
        r@ == spawn_candidates(lane_id as int, *kind),
{
    push_candidates(kind, lane_id, None)
}

/// Placements `(rot, x)` searched when replanning a piece in open air at
/// column `current_x`: the spawn candidates, widened for each rotation to
/// reach at least three columns either side of `current_x`.
pub fn generate_aerial_candidates(lane_id: usize, kind: &TrominoKind, current_x: i32) -> (r: Vec<(usize, i32)>)
    requires
        spec_lane_x_range(lane_id as int).1 + 3 <= i32::MAX,
        i32::MIN + 3 <= current_x <= i32::MAX - 3,
    ensures
        r@ == aerial_candidates(lane_id as int, *kind, current_x as int),
{
    push_candidates(kind, lane_id, Some(current_x))
}

/// Every candidate lies within the column bounds its rotation was given.
pub proof fn lemma_candidates_within(n: nat, bounds: spec_fn(nat) -> (int, int), lo: int, hi: int)
    requires
        i32::MIN <= lo,
        hi <= i32::MAX,
        forall|r: nat| r < n ==> lo <= (#[trigger] bounds(r)).0 && bounds(r).1 <= hi,
    ensures
        forall|j: int|
            0 <= j < candidates_upto(n, bounds).len() ==> lo <= (#[trigger] candidates_upto(n, bounds)[j]).1 <= hi,
    decreases n,
{
    if n > 0 {
        let m = (n - 1) as nat;
        lemma_candidates_within(m, bounds, lo, hi);
        let prev = candidates_upto(m, bounds);
        let run = x_run(m, bounds(m).0, bounds(m).1);
        assert(bounds(m).0 >= lo && bounds(m).1 <= hi);
        assert forall|j: int| 0 <= j < candidates_upto(n, bounds).len() implies lo <= (#[trigger] candidates_upto(
            n,
            bounds,
        )[j]).1 <= hi by {
            if j < prev.len() {
                assert(candidates_upto(n, bounds)[j] == prev[j]);
            } else {
                assert(candidates_upto(n, bounds)[j] == run[j - prev.len()]);
            }
        }
    }
}

/// The spawn candidates keep their columns between -3 and the right edge.
pub proof fn lemma_spawn_candidates_within(lane_id: int, kind: TrominoKind)
    ensures
        forall|j: int|
            0 <= j < spawn_candidates(lane_id, kind).len() ==> -3 <= (#[trigger] spawn_candidates(lane_id, kind)[j]).1
                <= TOTAL_GRID_WIDTH - 1,
{
    let bounds = |rot: nat| spawn_bounds(lane_id, kind, rot);
    assert forall|r: nat| r < kind.spec_rotation_count() implies -3 <= (#[trigger] bounds(r)).0 && bounds(r).1
        <= TOTAL_GRID_WIDTH - 1 by {
        lemma_offsets_shape(kind, r);
    }
    lemma_candidates_within(kind.spec_rotation_count(), bounds, -3, TOTAL_GRID_WIDTH - 1);
}

/// The in-air candidates keep their columns within three of `cur_x` beyond
/// the spawn candidates' range.
pub proof fn lemma_aerial_candidates_within(lane_id: int, kind: TrominoKind, cur_x: int)
    requires
        i32::MIN + 3 <= cur_x <= i32::MAX - 5,
    ensures
        forall|j: int|
            0 <= j < aerial_candidates(lane_id, kind, cur_x).len() ==> (#[trigger] aerial_candidates(lane_id, kind, cur_x)[j]).1
                <= i32::MAX - 2,
{
    let bounds = |rot: nat| aerial_bounds(lane_id, kind, rot, cur_x);
    assert forall|r: nat| r < kind.spec_rotation_count() implies i32::MIN <= (#[trigger] bounds(r)).0 && bounds(r).1
        <= i32::MAX - 2 by {
        lemma_offsets_shape(kind, r);
    }
    lemma_candidates_within(kind.spec_rotation_count(), bounds, i32::MIN as int, i32::MAX - 2);
}

/// The candidates of the first `n` rotations are exactly the pairs `(r, x)`
/// with `r < n` and `x` within rotation `r`'s bounds.
proof fn lemma_candidates_members(n: nat, bounds: spec_fn(nat) -> (int, int))
    requires
        n <= 4,
        forall|r: nat| r < n ==> i32::MIN <= (#[trigger] bounds(r)).0 && bounds(r).1 <= i32::MAX,
    ensures
        forall|r: nat, x: int|
            r < n && bounds(r).0 <= x <= bounds(r).1 ==> #[trigger] candidates_upto(n, bounds).contains(
                (r as usize, x as i32),
            ),
        forall|j: int|
            0 <= j < candidates_upto(n, bounds).len() ==> {
                let c = #[trigger] candidates_upto(n, bounds)[j];
                &&& (c.0 as nat) < n
                &&& bounds(c.0 as nat).0 <= c.1 <= bounds(c.0 as nat).1
            },
    decreases n,
{
    if n > 0 {
        let m = (n - 1) as nat;
        lemma_candidates_members(m, bounds);
        let prev = candidates_upto(m, bounds);
        let run = x_run(m, bounds(m).0, bounds(m).1);
        let cur = candidates_upto(n, bounds);
        assert(cur == prev + run);
        assert forall|r: nat, x: int| r < n && bounds(r).0 <= x <= bounds(r).1 implies #[trigger] cur.contains(
            (r as usize, x as i32),
        ) by {
            if r < m {
                assert(prev.contains((r as usize, x as i32)));
                let k = choose|k: int| 0 <= k < prev.len() && prev[k] == (r as usize, x as i32);
                assert(cur[k] == prev[k]);
            } else {
                let k = x - bounds(m).0;
                assert(run[k] == (r as usize, x as i32));
                assert(cur[prev.len() + k] == run[k]);
            }
        }
        assert forall|j: int| 0 <= j < cur.len() implies {
            let c = #[trigger] cur[j];
            &&& (c.0 as nat) < n
            &&& bounds(c.0 as nat).0 <= c.1 <= bounds(c.0 as nat).1
        } by {
            if j < prev.len() {
                assert(cur[j] == prev[j]);
            } else {
                assert(cur[j] == run[j - prev.len()]);
            }
        }
    }
}

/// The in-air candidates include every spawn candidate and, for every
/// rotation, each column within three of the piece's column `cur_x`.
pub proof fn law_aerial_candidates_cover(lane_id: int, kind: TrominoKind, cur_x: int)
    requires
        0 <= lane_id < LANE_COUNT,
        -0x4000_0000 <= cur_x <= 0x4000_0000,
    ensures
        forall|j: int|
            0 <= j < spawn_candidates(lane_id, kind).len() ==> aerial_candidates(lane_id, kind, cur_x).contains(
                #[trigger] spawn_candidates(lane_id, kind)[j],
            ),
        forall|r: nat, x: int|
            r < kind.spec_rotation_count() && cur_x - 3 <= x <= cur_x + 3 ==> #[trigger] aerial_candidates(
                lane_id,
                kind,
                cur_x,
            ).contains((r as usize, x as i32)),
{
    let sb = |rot: nat| spawn_bounds(lane_id, kind, rot);
    let ab = |rot: nat| aerial_bounds(lane_id, kind, rot, cur_x);
    let n = kind.spec_rotation_count();
    assert forall|r: nat| r < n implies i32::MIN <= (#[trigger] sb(r)).0 && sb(r).1 <= i32::MAX && i32::MIN <= ab(r).0
        && ab(r).1 <= i32::MAX by {
        lemma_offsets_shape(kind, r);
    }
    assert forall|r: nat| r < n implies i32::MIN <= (#[trigger] ab(r)).0 && ab(r).1 <= i32::MAX by {
        assert(sb(r).1 <= i32::MAX);
    }
    lemma_candidates_members(n, sb);
    lemma_candidates_members(n, ab);
    assert forall|j: int| 0 <= j < spawn_candidates(lane_id, kind).len() implies aerial_candidates(
        lane_id,
        kind,
        cur_x,
    ).contains(#[trigger] spawn_candidates(lane_id, kind)[j]) by {
        let c = spawn_candidates(lane_id, kind)[j];
        assert(candidates_upto(n, sb)[j] == c);
        let r = c.0 as nat;
        assert(r < n);
        assert(ab(r).0 <= c.1 <= ab(r).1);
        assert(candidates_upto(n, ab).contains((r as usize, c.1 as int as i32)));
    }
}

} // verus!
