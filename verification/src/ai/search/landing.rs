//! Where the landing searches can put a piece: every landing row they report
//! lies on the field and no higher than where the piece started.

use vstd::prelude::*;
use crate::ai::pathfinding::aerial::{aerial_direct, aerial_search_result, aerial_start, lemma_first_kick};
use crate::ai::pathfinding::explore::{lemma_fits_bounds, rules_of};
use crate::ai::pathfinding::model::DropRules;
use crate::ai::pathfinding::spawn_drop::{
    best_landing, direct_start_row, drop_from, spawn_landing_row, spawn_open, spawn_rules, spec_direct_drop,
    wall_clear_row,
};
use crate::board::{spec_lane_x_range, GlobalBoard};
use crate::config::{LANE_COUNT, LANE_HEIGHT};
use crate::tromino::TrominoKind;

verus! {

/// Along a path of legal moves the piece never rises, and it fits at every
/// position when it fits at the first.
pub proof fn lemma_path_positions(rules: DropRules, p: Seq<(i32, i32)>, k: int)
    requires
        rules.is_path(p),
        0 <= k < p.len(),
        rules.fits(p[0].0 as int, p[0].1 as int),
    ensures
        p[k].1 <= p[0].1,
        rules.fits(p[k].0 as int, p[k].1 as int),
    decreases k,
{
    if k > 0 {
        lemma_path_positions(rules, p, k - 1);
        let j = k - 1;
        assert(rules.step(p[j], p[j + 1]));
        assert(p[j + 1] == p[k]);
    }
}

/// The lowest resting row reachable from a fitting start is no higher than
/// the start, and the piece fits there.
pub proof fn lemma_rest_range(rules: DropRules, s: (i32, i32), t: i32)
    requires
        rules.fits(s.0 as int, s.1 as int),
    ensures
        rules.lowest_rest(s, t) matches Some(y) ==> y <= s.1 && rules.fits(t as int, y as int),
{
    if let Some(y) = rules.lowest_rest(s, t) {
        assert(rules.lowest_rest_at(s, t, y));
        let p = choose|p: Seq<(i32, i32)>| #[trigger] rules.is_path(p) && p[0] == s && p.last() == (t, y);
        lemma_path_positions(rules, p, p.len() - 1);
    }
}

/// Dropping straight down ends no higher than it started, and not below the
/// floor when it started above it.
pub proof fn lemma_drop_from(rules: DropRules, x: int, y: int)
    ensures
        drop_from(rules, x, y) <= y,
        y >= 0 ==> drop_from(rules, x, y) >= 0,
    decreases y,
{
    if y > 0 && rules.fits(x, y - 1) {
        lemma_drop_from(rules, x, y - 1);
    }
}

/// A landing row of the spawn search lies on the field, below the top row.
pub proof fn lemma_spawn_landing_range(
    board: GlobalBoard,
    lane_id: int,
    kind: TrominoKind,
    rot: nat,
    target_x: i32,
    reserved: Seq<(i32, i32)>,
    air: Seq<(i32, i32)>,
)
    requires
        0 <= lane_id < LANE_COUNT,
    ensures
        spawn_landing_row(board, lane_id, kind, rot, target_x, reserved, air) matches Some(y) ==> 0 <= y < LANE_HEIGHT,
{
    if let Some(y) = spawn_landing_row(board, lane_id, kind, rot, target_x, reserved, air) {
        let offs = kind.spec_cell_offsets(rot);
        let rules = spawn_rules(board, lane_id, kind, rot, reserved);
        let spawn_x = spec_lane_x_range(lane_id).0;
        let start = (spawn_x as i32, wall_clear_row(offs) as i32);
        assert(spawn_open(board, lane_id, kind, rot, reserved, air));
        crate::ai::pathfinding::explore::lemma_offsets_shape(kind, rot);
        assert(rules.fits(spawn_x, wall_clear_row(offs)));
        lemma_rest_range(rules, start, target_x);
        let direct = spec_direct_drop(board, lane_id, kind, rot, target_x as int, reserved);
        let plain = rules_of(board, kind, rot, reserved, None);
        if let Some(a) = rules.lowest_rest(start, target_x) {
            lemma_fits_bounds(board.grid(), kind, rot, reserved, target_x as int, a as int);
        }
        if let Some(b) = direct {
            let sy = direct_start_row(offs, lane_id, target_x as int);
            lemma_drop_from(plain, target_x as int, sy);
            lemma_fits_bounds(board.grid(), kind, rot, reserved, target_x as int, b);
        }
    }
}

/// A landing row of the in-air search lies on or above the floor and at most
/// one row above the start.
pub proof fn lemma_aerial_landing_range(
    board: GlobalBoard,
    kind: TrominoKind,
    rot: nat,
    sx: i32,
    sy: i32,
    target_x: i32,
    reserved: Seq<(i32, i32)>,
    y: i32,
    w: Seq<(i32, i32)>,
)
    requires
        i32::MIN < sx < i32::MAX,
        i32::MIN < sy < i32::MAX,
        aerial_search_result(board, kind, rot, sx, sy, target_x, reserved, Some((y, w))),
    ensures
        0 <= y <= sy + 1,
{
    let rules = rules_of(board, kind, rot, reserved, None);
    lemma_first_kick(rules, sx as int, sy as int, 0);
    let start = aerial_start(rules, sx as int, sy as int).unwrap();
    lemma_rest_range(rules, start, target_x);
    if let Some(a) = rules.lowest_rest(start, target_x) {
        lemma_fits_bounds(board.grid(), kind, rot, reserved, target_x as int, a as int);
    }
    if let Some(b) = aerial_direct(rules, sx as int, sy as int, target_x as int) {
        lemma_drop_from(rules, target_x as int, sy as int);
        lemma_fits_bounds(board.grid(), kind, rot, reserved, target_x as int, b);
    }
}

} // verus!
