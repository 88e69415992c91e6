//! Move search for a lane's piece: candidate placements and their features.

pub mod candidates;
pub mod landing;
pub mod plan;
pub mod spawn_search;
pub mod aerial_search;

pub use candidates::{determine_autonomous_pace, generate_aerial_candidates, generate_spawn_candidates};

use vstd::prelude::*;
use crate::ai::eval::{evaluation_inputs_ok, features_of, lock_and_clear_fit, Evaluator, PlacementFeatures};
use crate::ai::pathfinding::aerial::aerial_search_result;
use crate::ai::pathfinding::spawn_drop::{spawn_landing_row, spawn_search_result};
use crate::ai::pathfinding::PathFinder;
use crate::board::{CompactBoard, GlobalBoard};
use crate::config::LANE_COUNT;
use crate::game::LaneSignalBoard;
use crate::ai::eval::compact_eval::row_fill_rows;
use crate::ai::types::PredictedPlacement;
use crate::board::rows::{grid_words, wide_cleared, wide_locked};
use crate::game::{LanePace, LaneSignal};
use crate::tromino::TrominoKind;

verus! {

/// A placement the lane's piece can reach, with what scores it.
#[derive(Debug)]
pub struct MoveCandidate {
    pub rotation: usize,
    pub target_x: i32,
    pub landing_y: i32,
    pub pace: LanePace,
    /// Turning points of the route to the landing spot.
    pub waypoints: Vec<(i32, i32)>,
    pub features: PlacementFeatures,
    /// Bonus for keeping the plan the piece already follows.
    pub plan_bonus: i64,
}

/// The features of `m` are those of its placement by player `p`, judged on
/// the field `current` and the field `future` with the predicted pieces
/// locked in, with the row-fill rows read from the bitboard of `future`.
pub open spec fn move_features_ok(
    m: MoveCandidate,
    current: Seq<Seq<bool>>,
    future: Seq<Seq<bool>>,
    p: int,
    kind: TrominoKind,
    others: Seq<PredictedPlacement>,
    sigs: Seq<LaneSignal>,
) -> bool {
    let offs = kind.spec_cell_offsets(m.rotation as nat);
    &&& features_of(m.features, current, future, p, kind, m.rotation as nat, m.target_x as int, m.landing_y as int, others, sigs)
    &&& m.features.row_fill@ == row_fill_rows(
        wide_cleared(wide_locked(grid_words(future), offs, m.target_x as int, m.landing_y as int, 32), 32),
        offs,
        m.landing_y as int,
        3,
    )
}

/// The lane AI's entry points for landing searches and placement evaluation.
pub struct AutoAi;

impl AutoAi {
    /// Landing search from a position in open air (see `PathFinder::simulate_drop_from_path`).
    pub fn simulate_drop_from_path(
        board: &GlobalBoard,
        kind: &TrominoKind,
        from_rot: usize,
        to_rot: usize,
        start_x: i32,
        start_y: i32,
        target_x: i32,
        reserved_landing_cells: &[(i32, i32)],
    ) -> (r: Option<(i32, Vec<(i32, i32)>)>)
        requires
            i32::MIN < start_x <= i32::MAX - 3,
            i32::MIN < start_y <= i32::MAX - 4,
            target_x <= i32::MAX - 2,
        ensures
            aerial_search_result(
                *board,
                *kind,
                to_rot as nat,
                start_x,
                start_y,
                target_x,
                reserved_landing_cells@,
                match r {
                    Some((y, w)) => Some((y, w@)),
                    None => None,
                },
            ),
    {
        PathFinder::simulate_drop_from_path(
            board,
            kind,
            from_rot,
            to_rot,
            start_x,
            start_y,
            target_x,
            reserved_landing_cells,
        )
    }

    /// Landing search from the spawn slot (see `PathFinder::simulate_drop_with_tuck_path`).
    pub fn simulate_drop_with_tuck_path(
        board: &GlobalBoard,
        lane_id: usize,
        kind: &TrominoKind,
        rot: usize,
        target_x: i32,
        reserved_landing_cells: &[(i32, i32)],
        air_obstacles: &[(i32, i32)],
    ) -> (r: Option<(i32, Vec<(i32, i32)>)>)
        requires
            lane_id < LANE_COUNT,
            target_x <= i32::MAX - 2,
        ensures
            spawn_search_result(
                *board,
                lane_id as int,
                *kind,
                rot as nat,
                target_x,
                reserved_landing_cells@,
                air_obstacles@,
                match r {
                    Some((y, w)) => Some((y, w@)),
                    None => None,
                },
            ),
    {
        PathFinder::simulate_drop_with_tuck_path(
            board,
            lane_id,
            kind,
            rot,
            target_x,
            reserved_landing_cells,
            air_obstacles,
        )
    }

    /// Landing row of the spawn search (see `PathFinder::simulate_drop_with_tuck`).
    pub fn simulate_drop_with_tuck(
        board: &GlobalBoard,
        lane_id: usize,
        kind: &TrominoKind,
        rot: usize,
        target_x: i32,
        reserved_landing_cells: &[(i32, i32)],
        air_obstacles: &[(i32, i32)],
    ) -> (r: Option<i32>)
        requires
            lane_id < LANE_COUNT,
            target_x <= i32::MAX - 2,
        ensures
            r is None <==> spawn_landing_row(
                *board,
                lane_id as int,
                *kind,
                rot as nat,
                target_x,
                reserved_landing_cells@,
                air_obstacles@,
            ) is None,
            r matches Some(y) ==> spawn_landing_row(
                *board,
                lane_id as int,
                *kind,
                rot as nat,
                target_x,
                reserved_landing_cells@,
                air_obstacles@,
            ) == Some(y as int),
    {
        PathFinder::simulate_drop_with_tuck(
            board,
            lane_id,
            kind,
            rot,
            target_x,
            reserved_landing_cells,
            air_obstacles,
        )
    }

    /// Placement features on the bitboards (see `Evaluator::evaluate_placement_compact`).
    pub fn evaluate_placement_compact(
        current_board: &CompactBoard,
        future_board: &CompactBoard,
        player_id: usize,
        kind: &TrominoKind,
        rot: usize,
        x: i32,
        y: i32,
        predicted_others: &[PredictedPlacement],
        signals: &LaneSignalBoard,
    ) -> (r: PlacementFeatures)
        requires
            evaluation_inputs_ok(player_id as int, *kind, rot as nat, x as int, y as int, predicted_others@, signals.signals@),
        ensures
            features_of(
                r,
                current_board.grid(),
                future_board.grid(),
                player_id as int,
                *kind,
                rot as nat,
                x as int,
                y as int,
                predicted_others@,
                signals.signals@,
            ),
            r.row_fill@ == row_fill_rows(
                wide_cleared(wide_locked(future_board.words(), kind.spec_cell_offsets(rot as nat), x as int, y as int, 32), 32),
                kind.spec_cell_offsets(rot as nat),
                y as int,
                3,
            ),
    {
        Evaluator::evaluate_placement_compact(
            current_board,
            future_board,
            player_id,
            kind,
            rot,
            x,
            y,
            predicted_others,
            signals,
        )
    }

    /// Placement features on the full boards (see `Evaluator::evaluate_placement`).
    pub fn evaluate_placement(
        current_board: &GlobalBoard,
        future_board: &GlobalBoard,
        player_id: usize,
        kind: &TrominoKind,
        rot: usize,
        x: i32,
        y: i32,
        predicted_others: &[PredictedPlacement],
        signals: &LaneSignalBoard,
    ) -> (r: PlacementFeatures)
        requires
            evaluation_inputs_ok(player_id as int, *kind, rot as nat, x as int, y as int, predicted_others@, signals.signals@),
            lock_and_clear_fit(*current_board, kind.spec_cell_offsets(rot as nat), x as int, y as int),
            lock_and_clear_fit(*future_board, kind.spec_cell_offsets(rot as nat), x as int, y as int),
        ensures
            features_of(
                r,
                current_board.grid(),
                future_board.grid(),
                player_id as int,
                *kind,
                rot as nat,
                x as int,
                y as int,
                predicted_others@,
                signals.signals@,
            ),
            r.row_fill@.len() == 0,
    {
        Evaluator::evaluate_placement(
            current_board,
            future_board,
            player_id,
            kind,
            rot,
            x,
            y,
            predicted_others,
            signals,
        )
    }
}

} // verus!
