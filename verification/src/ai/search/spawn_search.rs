//! Reachable placements for a piece entering through its lane's spawn slot.

use vstd::prelude::*;
use super::candidates::{determine_autonomous_pace, generate_spawn_candidates, pace_rule, spawn_candidates};
use super::landing::lemma_spawn_landing_range;
use super::plan::{future_board_of, future_grid, hits_reserved, predictions_lockable, reserved_cells_of, reserved_of};
use super::{move_features_ok, MoveCandidate};
use crate::ai::eval::{evaluation_inputs_ok, signal_lanes_ok, Evaluator};
use crate::ai::eval::cooperation::lane_gap_ok;
use crate::ai::pathfinding::model::blocked_by;
use crate::ai::pathfinding::spawn_drop::{spawn_landing_row, spawn_search_result};
use crate::ai::pathfinding::PathFinder;
use crate::ai::types::PredictedPlacement;
use crate::board::model::{deepest_hole_of, lane_fill_at_target};
use crate::board::rows::grid_words;
use crate::board::{CompactBoard, GlobalBoard};
use crate::config::LANE_COUNT;
use crate::game::{LanePace, LaneSignal, LaneSignalBoard};
use crate::tromino::TrominoKind;

verus! {

/// No cell of the piece `offs` at `(x, y)` is one of `reserved`.
pub open spec fn clear_of(reserved: Seq<(i32, i32)>, offs: Seq<(i32, i32)>, x: int, y: int) -> bool {
    forall|i: int| 0 <= i < offs.len() ==> !#[trigger] blocked_by(reserved, x + offs[i].0, y + offs[i].1)
}

/// Landing row of spawn candidate `(rot, x)`: the spawn search's row, when the
/// piece resting there takes no reserved cell.
pub open spec fn spawn_landing(
    future: GlobalBoard,
    lane_id: int,
    kind: TrominoKind,
    reserved: Seq<(i32, i32)>,
    air: Seq<(i32, i32)>,
    rot: usize,
    x: i32,
) -> Option<int> {
    match spawn_landing_row(future, lane_id, kind, rot as nat, x, reserved, air) {
        Some(y) => if clear_of(reserved, kind.spec_cell_offsets(rot as nat), x as int, y) {
            Some(y)
        } else {
            None
        },
        None => None,
    }
}

/// The spawn candidates of `cands` that have a landing row, as `(rot, x, row)`, in order.
pub open spec fn spawn_moves(
    future: GlobalBoard,
    lane_id: int,
    kind: TrominoKind,
    reserved: Seq<(i32, i32)>,
    air: Seq<(i32, i32)>,
    cands: Seq<(usize, i32)>,
) -> Seq<(usize, i32, int)>
    decreases cands.len(),
{
    if cands.len() == 0 {
        seq![]
    } else {
        let prev = spawn_moves(future, lane_id, kind, reserved, air, cands.drop_last());
        let (rot, x) = cands.last();
        match spawn_landing(future, lane_id, kind, reserved, air, rot, x) {
            Some(y) => prev.push((rot, x, y)),
            None => prev,
        }
    }
}

/// What the spawn search needs of its inputs.
pub open spec fn spawn_inputs_ok(
    board: GlobalBoard,
    lane_id: int,
    predicted_others: Seq<PredictedPlacement>,
    sigs: Seq<LaneSignal>,
) -> bool {
    &&& 0 <= lane_id < LANE_COUNT
    &&& predictions_lockable(board, predicted_others)
    &&& signal_lanes_ok(lane_id, sigs)
}

/// Candidate `(rot, x)` of the spawn search, evaluated when it has a landing row.
#[verifier::rlimit(40)]
fn spawn_candidate(
    board: &GlobalBoard,
    future: &GlobalBoard,
    compact_current: &CompactBoard,
    compact_future: &CompactBoard,
    lane_id: usize,
    kind: &TrominoKind,
    rot: usize,
    x: i32,
    reserved: &Vec<(i32, i32)>,
    air_obstacles: &[(i32, i32)],
    predicted_others: &[PredictedPlacement],
    signals: &LaneSignalBoard,
    pace: LanePace,
) -> (r: Option<MoveCandidate>)
    requires
        spawn_inputs_ok(*board, lane_id as int, predicted_others@, signals.signals@),
        compact_current.grid() == board.grid(),
        compact_future.grid() == future.grid(),
        compact_future.words() == grid_words(future.grid()),
        x <= i32::MAX - 2,
    ensures
        match spawn_landing(*future, lane_id as int, *kind, reserved@, air_obstacles@, rot, x) {
            None => r is None,
            Some(y) => r matches Some(m) && {
                &&& m.rotation == rot
                &&& m.target_x == x
                &&& m.landing_y == y
                &&& m.pace == pace
                &&& m.plan_bonus == 0
                &&& spawn_search_result(
                    *future,
                    lane_id as int,
                    *kind,
                    rot as nat,
                    x,
                    reserved@,
                    air_obstacles@,
                    Some((m.landing_y, m.waypoints@)),
                )
                &&& move_features_ok(m, board.grid(), future.grid(), lane_id as int, *kind, predicted_others@, signals.signals@)
            },
        },
{
    let res = PathFinder::simulate_drop_with_tuck_path(future, lane_id, kind, rot, x, reserved.as_slice(), air_obstacles);
    proof {
        lemma_spawn_landing_range(*future, lane_id as int, *kind, rot as nat, x, reserved@, air_obstacles@);
        crate::ai::pathfinding::explore::lemma_offsets_shape(*kind, rot as nat);
    }
    match res {
        None => None,
        Some((landing_y, waypoints)) => {
            let offsets = kind.cell_offsets(rot);
            if hits_reserved(reserved.as_slice(), &offsets, x, landing_y) {
                return None;
            }
            let features = Evaluator::evaluate_placement_compact(
                compact_current,
                compact_future,
                lane_id,
                kind,
                rot,
                x,
                landing_y,
                predicted_others,
                signals,
            );
            Some(MoveCandidate { rotation: rot, target_x: x, landing_y, pace, waypoints, features, plan_bonus: 0 })
        },
    }
}

/// The pace a lane picks for the field `g`, as `determine_autonomous_pace` decides it.
pub open spec fn autonomous_pace_is(g: Seq<Seq<bool>>, lane_id: int, pace: LanePace) -> bool {
    pace == pace_rule(lane_fill_at_target(g, lane_id), deepest_hole_of(g, lane_id))
}

/// Every reachable placement of a piece spawned in lane `lane_id`, in the
/// order of `generate_spawn_candidates`, planned around the other players'
/// predicted pieces: their cells are reserved and the field is searched with
/// them locked in. A candidate counts when the spawn search finds a landing
/// row for it and the piece resting there takes no reserved cell. Each comes
/// with its route, the lane's own pace and the features that score it; the
/// caller picks the best by their weighted score.
#[verifier::rlimit(40)]
pub fn spawn_move_candidates(
    board: &GlobalBoard,
    lane_id: usize,
    kind: &TrominoKind,
    predicted_others: &[PredictedPlacement],
    air_obstacles: &[(i32, i32)],
    signals: &LaneSignalBoard,
) -> (r: Vec<MoveCandidate>)
    requires
        spawn_inputs_ok(*board, lane_id as int, predicted_others@, signals.signals@),
    ensures
        exists|future: GlobalBoard|
            #[trigger] future.grid() == future_grid(board.grid(), predicted_others@, predicted_others@.len() as int) && {
                let reserved = reserved_of(predicted_others@, predicted_others@.len() as int);
                let moves = spawn_moves(
                    future,
                    lane_id as int,
                    *kind,
                    reserved,
                    air_obstacles@,
                    spawn_candidates(lane_id as int, *kind),
                );
                &&& r@.len() == moves.len()
                &&& forall|k: int|
                    0 <= k < r@.len() ==> {
                        let m = #[trigger] r@[k];
                        &&& m.rotation == moves[k].0
                        &&& m.target_x == moves[k].1
                        &&& m.landing_y == moves[k].2
                        &&& m.plan_bonus == 0
                        &&& autonomous_pace_is(board.grid(), lane_id as int, m.pace)
                        &&& spawn_search_result(
                            future,
                            lane_id as int,
                            *kind,
                            m.rotation as nat,
                            m.target_x,
                            reserved,
                            air_obstacles@,
                            Some((m.landing_y, m.waypoints@)),
                        )
                        &&& move_features_ok(m, board.grid(), future.grid(), lane_id as int, *kind, predicted_others@, signals.signals@)
                    }
            },
{
    let reserved = reserved_cells_of(predicted_others);
    let future = future_board_of(board, predicted_others);
    let compact_current = board.to_compact();
    let compact_future = future.to_compact();
    let pace = determine_autonomous_pace(board, lane_id);
    let candidates = generate_spawn_candidates(lane_id, kind);
    let ghost cands = candidates@;
    proof {
        super::candidates::lemma_spawn_candidates_within(lane_id as int, *kind);
    }
    let mut out: Vec<MoveCandidate> = Vec::new();
    let mut i: usize = 0;
    while i < candidates.len()
        invariant
            0 <= i <= cands.len(),
            cands == candidates@,
            spawn_inputs_ok(*board, lane_id as int, predicted_others@, signals.signals@),
            compact_current.grid() == board.grid(),
            compact_future.grid() == future.grid(),
            compact_future.words() == grid_words(future.grid()),
            autonomous_pace_is(board.grid(), lane_id as int, pace),
            forall|j: int| 0 <= j < cands.len() ==> (#[trigger] cands[j]).1 <= 30,
            ({
                let moves = spawn_moves(future, lane_id as int, *kind, reserved@, air_obstacles@, cands.subrange(0, i as int));
                &&& out@.len() == moves.len()
                &&& forall|k: int|
                    0 <= k < out@.len() ==> {
                        let m = #[trigger] out@[k];
                        &&& m.rotation == moves[k].0
                        &&& m.target_x == moves[k].1
                        &&& m.landing_y == moves[k].2
                        &&& m.plan_bonus == 0
                        &&& m.pace == pace
                        &&& spawn_search_result(
                            future,
                            lane_id as int,
                            *kind,
                            m.rotation as nat,
                            m.target_x,
                            reserved@,
                            air_obstacles@,
                            Some((m.landing_y, m.waypoints@)),
                        )
                        &&& move_features_ok(m, board.grid(), future.grid(), lane_id as int, *kind, predicted_others@, signals.signals@)
                    }
            }),
        decreases cands.len() - i,
    {
        let (rot, x) = candidates[i];
        assert(cands.subrange(0, i + 1).drop_last() =~= cands.subrange(0, i as int));
        let c = spawn_candidate(
            board,
            &future,
            &compact_current,
            &compact_future,
            lane_id,
            kind,
            rot,
            x,
            &reserved,
            air_obstacles,
            predicted_others,
            signals,
            pace,
        );
        match c {
            Some(m) => {
                out.push(m);
            },
            None => {},
        }
        i += 1;
    }
    assert(cands.subrange(0, cands.len() as int) =~= cands);
    out
}

/// Whether the placement `offs` at row `y` reaches above the top row.
fn overflows_top(offsets: &Vec<(i32, i32)>, y: i32) -> (r: bool)
    ensures
        r == crate::board::model::piece_overflows(offsets@, y as int),
{
    let mut i: usize = 0;
    while i < offsets.len()
        invariant
            0 <= i <= offsets@.len(),
            forall|k: int| 0 <= k < i ==> y + #[trigger] offsets@[k].1 < crate::config::LANE_HEIGHT,
        decreases offsets.len() - i,
    {
        if y as i64 + offsets[i].1 as i64 >= crate::config::LANE_HEIGHT as i64 {
            return true;
        }
        i += 1;
    }
    false
}

/// Whether the searches can run for lane `lane_id` with these predictions
/// and signals (see `spawn_inputs_ok`).
pub fn search_inputs_ok(
    board: &GlobalBoard,
    lane_id: usize,
    predicted_others: &[PredictedPlacement],
    signals: &LaneSignalBoard,
) -> (r: bool)
    ensures
        r == spawn_inputs_ok(*board, lane_id as int, predicted_others@, signals.signals@),
{
    if lane_id >= LANE_COUNT {
        return false;
    }
    let mut in_range = true;
    let mut fitting: u64 = 0;
    let mut k: usize = 0;
    while k < predicted_others.len()
        invariant
            0 <= k <= predicted_others@.len(),
            fitting == super::plan::fitting_count(predicted_others@, k as int),
            fitting <= k,
            in_range == forall|j: int|
                0 <= j < k ==> (#[trigger] predicted_others@[j]).target_x <= i32::MAX - 2 && predicted_others@[j].landing_y
                    <= i32::MAX - 2,
        decreases predicted_others.len() - k,
    {
        let other = predicted_others[k];
        assert(other == predicted_others@[k as int]);
        if other.target_x > i32::MAX - 2 || other.landing_y > i32::MAX - 2 {
            in_range = false;
        }
        let offsets = other.kind.cell_offsets(other.rotation);
        if !overflows_top(&offsets, other.landing_y) {
            fitting = fitting + 1;
        }
        k += 1;
    }
    if !in_range || board.score as u128 + 10 * (fitting as u128) > u32::MAX as u128 {
        return false;
    }
    let mut i: usize = 0;
    while i < LANE_COUNT
        invariant
            0 <= i <= LANE_COUNT,
            lane_id < LANE_COUNT,
            forall|j: int|
                0 <= j < i && (#[trigger] signals.signals@[j]).lane_id != lane_id ==> lane_gap_ok(
                    signals.signals@[j].lane_id as int,
                    lane_id as int,
                ),
        decreases LANE_COUNT - i,
    {
        let s = signals.signals[i];
        assert(s == signals.signals@[i as int]);
        if s.lane_id != lane_id {
            let gap: i64 = (s.lane_id as i32) as i64 - (lane_id as i32) as i64;
            if gap <= i32::MIN as i64 || gap > i32::MAX as i64 {
                return false;
            }
        }
        i += 1;
    }
    true
}

} // verus!
