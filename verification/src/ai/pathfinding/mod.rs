//! Reachability of landing spots for a falling piece.

pub mod model;
pub mod common;
pub mod explore;
pub mod spawn_drop;
pub mod aerial;

use vstd::prelude::*;
use crate::board::GlobalBoard;
use crate::config::LANE_COUNT;
use crate::tromino::TrominoKind;
use model::fits_clear;
use aerial::aerial_search_result;
use spawn_drop::{spawn_landing_row, spawn_search_result};

pub use aerial::simulate_drop_from_path;
pub use common::{can_place_check, reconstruct_waypoints, SearchTree};
pub use spawn_drop::{simulate_direct_drop, simulate_drop_with_tuck_path};

verus! {

/// Entry points of the landing search.
pub struct PathFinder;

impl PathFinder {
    /// Whether the piece fits the field at `(base_x, base_y)` clear of `obstacles`.
    pub fn can_place_check(
        board: &GlobalBoard,
        kind: &TrominoKind,
        rot: usize,
        base_x: i32,
        base_y: i32,
        obstacles: &[(i32, i32)],
    ) -> (r: bool)
        requires
            base_x <= i32::MAX - 2,
            base_y <= i32::MAX - 2,
        ensures
            r == fits_clear(board.grid(), kind.spec_cell_offsets(rot as nat), obstacles@, base_x as int, base_y as int),
    {
        common::can_place_check(board, kind, rot, base_x, base_y, obstacles)
    }

    /// Landing search from a position in open air (see `aerial::simulate_drop_from_path`).
    pub fn simulate_drop_from_path(
        board: &GlobalBoard,
        kind: &TrominoKind,
        from_rot: usize,
        to_rot: usize,
        start_x: i32,
        start_y: i32,
        target_x: i32,
        reserved_landing_cells: &[(i32, i32)],
    ) -> (r: Option<(i32, Vec<(i32, i32)>)>)
        requires
            i32::MIN < start_x <= i32::MAX - 3,
            i32::MIN < start_y <= i32::MAX - 4,
            target_x <= i32::MAX - 2,
        ensures
            aerial_search_result(
                *board,
                *kind,
                to_rot as nat,
                start_x,
                start_y,
                target_x,
                reserved_landing_cells@,
                match r {
                    Some((y, w)) => Some((y, w@)),
                    None => None,
                },
            ),
    {
        aerial::simulate_drop_from_path(
            board,
            kind,
            from_rot,
            to_rot,
            start_x,
            start_y,
            target_x,
            reserved_landing_cells,
        )
    }

    /// Landing row of the spawn search (see `spawn_drop::simulate_drop_with_tuck_path`).
    pub fn simulate_drop_with_tuck(
        board: &GlobalBoard,
        lane_id: usize,
        kind: &TrominoKind,
        rot: usize,
        target_x: i32,
        reserved_landing_cells: &[(i32, i32)],
        air_obstacles: &[(i32, i32)],
    ) -> (r: Option<i32>)
        requires
            lane_id < LANE_COUNT,
            target_x <= i32::MAX - 2,
        ensures
            r is None <==> spawn_landing_row(
                *board,
                lane_id as int,
                *kind,
                rot as nat,
                target_x,
                reserved_landing_cells@,
                air_obstacles@,
            ) is None,
            r matches Some(y) ==> spawn_landing_row(
                *board,
                lane_id as int,
                *kind,
                rot as nat,
                target_x,
                reserved_landing_cells@,
                air_obstacles@,
            ) == Some(y as int),
    {
        let res = spawn_drop::simulate_drop_with_tuck_path(
            board,
            lane_id,
            kind,
            rot,
            target_x,
            reserved_landing_cells,
            air_obstacles,
        );
        match res {
            Some((y, w)) => {
                let r = Some(y);
                assert(spawn_search_result(
                    *board,
                    lane_id as int,
                    *kind,
                    rot as nat,
                    target_x,
                    reserved_landing_cells@,
                    air_obstacles@,
                    Some((y, w@)),
                ));
                r
            },
            None => {
                assert(spawn_search_result(
                    *board,
                    lane_id as int,
                    *kind,
                    rot as nat,
                    target_x,
                    reserved_landing_cells@,
                    air_obstacles@,
                    None,
                ));
                None
            },
        }
    }

    /// Landing search from the spawn slot (see `spawn_drop::simulate_drop_with_tuck_path`).
    pub fn simulate_drop_with_tuck_path(
        board: &GlobalBoard,
        lane_id: usize,
        kind: &TrominoKind,
        rot: usize,
        target_x: i32,
        reserved_landing_cells: &[(i32, i32)],
        air_obstacles: &[(i32, i32)],
    ) -> (r: Option<(i32, Vec<(i32, i32)>)>)
        requires
            lane_id < LANE_COUNT,
            target_x <= i32::MAX - 2,
        ensures
            spawn_search_result(
                *board,
                lane_id as int,
                *kind,
                rot as nat,
                target_x,
                reserved_landing_cells@,
                air_obstacles@,
                match r {
                    Some((y, w)) => Some((y, w@)),
                    None => None,
                },
            ),
    {
        spawn_drop::simulate_drop_with_tuck_path(
            board,
            lane_id,
            kind,
            rot,
            target_x,
            reserved_landing_cells,
            air_obstacles,
        )
    }
}

} // verus!
