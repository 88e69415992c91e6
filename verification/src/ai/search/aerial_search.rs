//! Reachable placements when replanning a piece already falling in open air.

use vstd::prelude::*;
use super::candidates::{aerial_candidates, determine_autonomous_pace, generate_aerial_candidates};
use super::landing::lemma_aerial_landing_range;
use super::plan::{future_board_of, future_grid, hits_reserved, reserved_cells_of, reserved_of};
use super::spawn_search::{autonomous_pace_is, clear_of, spawn_inputs_ok};
use super::{move_features_ok, MoveCandidate};
use crate::ai::eval::Evaluator;
use crate::ai::pathfinding::aerial::{aerial_direct, aerial_search_result, aerial_start};
use crate::ai::pathfinding::explore::rules_of;
use crate::ai::pathfinding::spawn_drop::best_landing;
use crate::ai::pathfinding::PathFinder;
use crate::ai::types::PredictedPlacement;
use crate::board::rows::grid_words;
use crate::board::{CompactBoard, GlobalBoard};
use crate::game::{LanePace, LaneSignalBoard};
use crate::tromino::TrominoKind;

verus! {

/// Landing row of the in-air search for rotation `rot` and column `x` from
/// `(sx, sy)`, when the piece resting there takes no reserved cell.
pub open spec fn aerial_landing(
    future: GlobalBoard,
    kind: TrominoKind,
    reserved: Seq<(i32, i32)>,
    sx: i32,
    sy: i32,
    rot: usize,
    x: i32,
) -> Option<int> {
    let rules = rules_of(future, kind, rot as nat, reserved, None);
    let found = match aerial_start(rules, sx as int, sy as int) {
        None => None,
        Some(start) => best_landing(rules.lowest_rest(start, x), aerial_direct(rules, sx as int, sy as int, x as int)),
    };
    match found {
        Some(y) => if clear_of(reserved, kind.spec_cell_offsets(rot as nat), x as int, y) {
            Some(y)
        } else {
            None
        },
        None => None,
    }
}

/// The in-air candidates of `cands` that have a landing row, as `(rot, x, row)`, in order.
pub open spec fn aerial_moves(
    future: GlobalBoard,
    kind: TrominoKind,
    reserved: Seq<(i32, i32)>,
    sx: i32,
    sy: i32,
    cands: Seq<(usize, i32)>,
) -> Seq<(usize, i32, int)>
    decreases cands.len(),
{
    if cands.len() == 0 {
        seq![]
    } else {
        let prev = aerial_moves(future, kind, reserved, sx, sy, cands.drop_last());
        let (rot, x) = cands.last();
        match aerial_landing(future, kind, reserved, sx, sy, rot, x) {
            Some(y) => prev.push((rot, x, y)),
            None => prev,
        }
    }
}

/// Bonus of 120 for keeping the target column and rotation the piece already follows.
pub open spec fn plan_bonus_for(current_target: Option<(i32, usize)>, rot: usize, x: i32) -> int {
    if current_target == Some((x, rot)) {
        120
    } else {
        0
    }
}

/// Candidate `(rot, x)` of the in-air search, evaluated when it has a landing row.
#[verifier::rlimit(40)]
fn aerial_candidate(
    board: &GlobalBoard,
    future: &GlobalBoard,
    compact_current: &CompactBoard,
    compact_future: &CompactBoard,
    lane_id: usize,
    kind: &TrominoKind,
    current_x: i32,
    current_y: i32,
    current_rotation: usize,
    current_target: Option<(i32, usize)>,
    rot: usize,
    x: i32,
    reserved: &Vec<(i32, i32)>,
    predicted_others: &[PredictedPlacement],
    signals: &LaneSignalBoard,
    pace: LanePace,
) -> (r: Option<MoveCandidate>)
    requires
        spawn_inputs_ok(*board, lane_id as int, predicted_others@, signals.signals@),
        compact_current.grid() == board.grid(),
        compact_future.grid() == future.grid(),
        compact_future.words() == grid_words(future.grid()),
        i32::MIN < current_x <= i32::MAX - 3,
        i32::MIN < current_y <= i32::MAX - 4,
        x <= i32::MAX - 2,
    ensures
        match aerial_landing(*future, *kind, reserved@, current_x, current_y, rot, x) {
            None => r is None,
            Some(y) => r matches Some(m) && {
                &&& m.rotation == rot
                &&& m.target_x == x
                &&& m.landing_y == y
                &&& m.pace == pace
                &&& m.plan_bonus == plan_bonus_for(current_target, rot, x)
                &&& aerial_search_result(
                    *future,
                    *kind,
                    rot as nat,
                    current_x,
                    current_y,
                    x,
                    reserved@,
                    Some((m.landing_y, m.waypoints@)),
                )
                &&& move_features_ok(m, board.grid(), future.grid(), lane_id as int, *kind, predicted_others@, signals.signals@)
            },
        },
{
    let res = PathFinder::simulate_drop_from_path(
        future,
        kind,
        current_rotation,
        rot,
        current_x,
        current_y,
        x,
        reserved.as_slice(),
    );
    proof {
        crate::ai::pathfinding::explore::lemma_offsets_shape(*kind, rot as nat);
    }
    match res {
        None => None,
        Some((landing_y, waypoints)) => {
            proof {
                lemma_aerial_landing_range(*future, *kind, rot as nat, current_x, current_y, x, reserved@, landing_y, waypoints@);
            }
            let offsets = kind.cell_offsets(rot);
            if hits_reserved(reserved.as_slice(), &offsets, x, landing_y) {
                return None;
            }
            let features = Evaluator::evaluate_placement_compact(
                compact_current,
                compact_future,
                lane_id,
                kind,
                rot,
                x,
                landing_y,
                predicted_others,
                signals,
            );
            let plan_bonus: i64 = match current_target {
                Some((tx, trot)) => if tx == x && trot == rot {
                    120
                } else {
                    0
                },
                None => 0,
            };
            Some(MoveCandidate { rotation: rot, target_x: x, landing_y, pace, waypoints, features, plan_bonus })
        },
    }
}

/// Every reachable placement when replanning lane `lane_id`'s piece falling
/// at `(current_x, current_y)`, in the order of `generate_aerial_candidates`,
/// planned around the other players' predicted pieces as the spawn search
/// is. A candidate counts when the in-air search finds a landing row for it
/// and the piece resting there takes no reserved cell. Each comes with its
/// route, the lane's own pace, the features that score it and a bonus of 120
/// when it keeps `current_target`, the `(column, rotation)` the piece already
/// heads for; the caller picks the best by their weighted score.
#[verifier::rlimit(40)]
pub fn aerial_move_candidates(
    board: &GlobalBoard,
    lane_id: usize,
    kind: &TrominoKind,
    current_x: i32,
    current_y: i32,
    current_rotation: usize,
    current_target: Option<(i32, usize)>,
    predicted_others: &[PredictedPlacement],
    signals: &LaneSignalBoard,
) -> (r: Vec<MoveCandidate>)
    requires
        spawn_inputs_ok(*board, lane_id as int, predicted_others@, signals.signals@),
        i32::MIN + 3 <= current_x <= i32::MAX - 5,
        i32::MIN < current_y <= i32::MAX - 4,
    ensures
        exists|future: GlobalBoard|
            #[trigger] future.grid() == future_grid(board.grid(), predicted_others@, predicted_others@.len() as int) && {
                let reserved = reserved_of(predicted_others@, predicted_others@.len() as int);
                let moves = aerial_moves(
                    future,
                    *kind,
                    reserved,
                    current_x,
                    current_y,
                    aerial_candidates(lane_id as int, *kind, current_x as int),
                );
                &&& r@.len() == moves.len()
                &&& forall|k: int|
                    0 <= k < r@.len() ==> {
                        let m = #[trigger] r@[k];
                        &&& m.rotation == moves[k].0
                        &&& m.target_x == moves[k].1
                        &&& m.landing_y == moves[k].2
                        &&& m.plan_bonus == plan_bonus_for(current_target, m.rotation, m.target_x)
                        &&& autonomous_pace_is(board.grid(), lane_id as int, m.pace)
                        &&& aerial_search_result(
                            future,
                            *kind,
                            m.rotation as nat,
                            current_x,
                            current_y,
                            m.target_x,
                            reserved,
                            Some((m.landing_y, m.waypoints@)),
                        )
                        &&& move_features_ok(m, board.grid(), future.grid(), lane_id as int, *kind, predicted_others@, signals.signals@)
                    }
            },
{
    let reserved = reserved_cells_of(predicted_others);
    let future = future_board_of(board, predicted_others);
    let compact_current = board.to_compact();
    let compact_future = future.to_compact();
    let pace = determine_autonomous_pace(board, lane_id);
    let candidates = generate_aerial_candidates(lane_id, kind, current_x);
    let ghost cands = candidates@;
    proof {
        super::candidates::lemma_aerial_candidates_within(lane_id as int, *kind, current_x as int);
    }
    let mut out: Vec<MoveCandidate> = Vec::new();
    let mut i: usize = 0;
    while i < candidates.len()
        invariant
            0 <= i <= cands.len(),
            cands == candidates@,
            spawn_inputs_ok(*board, lane_id as int, predicted_others@, signals.signals@),
            compact_current.grid() == board.grid(),
            compact_future.grid() == future.grid(),
            compact_future.words() == grid_words(future.grid()),
            autonomous_pace_is(board.grid(), lane_id as int, pace),
            i32::MIN + 3 <= current_x <= i32::MAX - 5,
            i32::MIN < current_y <= i32::MAX - 4,
            forall|j: int| 0 <= j < cands.len() ==> (#[trigger] cands[j]).1 <= i32::MAX - 2,
            ({
                let moves = aerial_moves(future, *kind, reserved@, current_x, current_y, cands.subrange(0, i as int));
                &&& out@.len() == moves.len()
                &&& forall|k: int|
                    0 <= k < out@.len() ==> {
                        let m = #[trigger] out@[k];
                        &&& m.rotation == moves[k].0
                        &&& m.target_x == moves[k].1
                        &&& m.landing_y == moves[k].2
                        &&& m.plan_bonus == plan_bonus_for(current_target, m.rotation, m.target_x)
                        &&& m.pace == pace
                        &&& aerial_search_result(
                            future,
                            *kind,
                            m.rotation as nat,
                            current_x,
                            current_y,
                            m.target_x,
                            reserved@,
                            Some((m.landing_y, m.waypoints@)),
                        )
                        &&& move_features_ok(m, board.grid(), future.grid(), lane_id as int, *kind, predicted_others@, signals.signals@)
                    }
            }),
        decreases cands.len() - i,
    {
        let (rot, x) = candidates[i];
        assert(cands.subrange(0, i + 1).drop_last() =~= cands.subrange(0, i as int));
        let c = aerial_candidate(
            board,
            &future,
            &compact_current,
            &compact_future,
            lane_id,
            kind,
            current_x,
            current_y,
            current_rotation,
            current_target,
            rot,
            x,
            &reserved,
            predicted_others,
            signals,
            pace,
        );
        match c {
            Some(m) => {
                out.push(m);
            },
            None => {},
        }
        i += 1;
    }
    assert(cands.subrange(0, cands.len() as int) =~= cands);
    out
}

} // verus!
