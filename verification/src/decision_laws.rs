//! Properties of the lanes' decisions: which signals matter, which well a
//! lane reports, when it hurries, where a rotation kicks a piece, and which
//! piece a draw gives.

use vstd::prelude::*;
use crate::ai::eval::cooperation::{signal_cooperation, signal_terms, wrap_i32};
use crate::ai::search::candidates::pace_rule;
use crate::board::model::{
    column_height, deepest_hole_of, deepest_hole_spec, is_hole, lane_fill_at_target, lane_has_hole, lemma_deepest_hole_of,
    lemma_height_below, sunken_column,
};
use crate::board::spec_lane_x_range;
use crate::config::{LANE_COUNT, LANE_HEIGHT};
use crate::falling::{collides_at, first_free_kick};
use crate::game::signals::deepest_well;
use crate::game::{LanePace, LaneSignal};
use crate::tromino::{kind_for_draw, TrominoKind};

verus! {

/// `s` with its pace and intended column replaced.
pub open spec fn with_pace(s: LaneSignal, pace: LanePace, intent: Option<i32>) -> LaneSignal {
    LaneSignal {
        lane_id: s.lane_id,
        hole_x: s.hole_x,
        hole_status: s.hole_status,
        vertical_well: s.vertical_well,
        intent_target_x: intent,
        pace,
    }
}

proof fn lemma_far_pace_sum(
    p: int,
    offs: Seq<(i32, i32)>,
    x: int,
    sigs: Seq<LaneSignal>,
    i: int,
    pace: LanePace,
    intent: Option<i32>,
    n: int,
)
    requires
        0 <= i < sigs.len(),
        n <= sigs.len(),
        vstd::math::abs(wrap_i32(sigs[i].lane_id as int) - wrap_i32(p)) != 1,
    ensures
        signal_cooperation(p, offs, x, sigs.update(i, with_pace(sigs[i], pace, intent)), n) == signal_cooperation(
            p,
            offs,
            x,
            sigs,
            n,
        ),
    decreases n,
{
    if n > 0 {
        lemma_far_pace_sum(p, offs, x, sigs, i, pace, intent, n - 1);
        let s2 = sigs.update(i, with_pace(sigs[i], pace, intent));
        if n - 1 == i {
            assert(s2[n - 1] == with_pace(sigs[i], pace, intent));
            assert(signal_terms(p, offs, x, s2[n - 1]) == signal_terms(p, offs, x, sigs[n - 1]));
        } else {
            assert(s2[n - 1] == sigs[n - 1]);
        }
    }
}

/// Only the lanes beside a player can hurry or crowd it, or invite it into
/// their holes: the signal cooperation of a placement (bonus and penalty)
/// stays the same when a lane that is not a neighbour of the player (its own
/// lane or one two or more lanes away, lane numbers taken as `i32` as the
/// signals are read) changes its pace or its intended column, and such a
/// lane's signal never earns a bonus.
pub proof fn law_only_neighbours_steer(
    p: int,
    offs: Seq<(i32, i32)>,
    x: int,
    sigs: Seq<LaneSignal>,
    i: int,
    pace: LanePace,
    intent: Option<i32>,
)
    requires
        0 <= i < sigs.len(),
        vstd::math::abs(wrap_i32(sigs[i].lane_id as int) - wrap_i32(p)) != 1,
    ensures
        signal_cooperation(p, offs, x, sigs.update(i, with_pace(sigs[i], pace, intent)), sigs.len() as int)
            == signal_cooperation(p, offs, x, sigs, sigs.len() as int),
        forall|s: LaneSignal|
            vstd::math::abs(wrap_i32(s.lane_id as int) - wrap_i32(p)) != 1 ==> #[trigger] signal_terms(p, offs, x, s).0
                == 0,
{
    lemma_far_pace_sum(p, offs, x, sigs, i, pace, intent, sigs.len() as int);
    assert forall|s: LaneSignal| vstd::math::abs(wrap_i32(s.lane_id as int) - wrap_i32(p)) != 1 implies #[trigger] signal_terms(
        p,
        offs,
        x,
        s,
    ).0 == 0 by {}
}

/// The well a lane reports is the deepest of its wells: there is one exactly
/// when the lane has a well; it is one of the lane's wells, no well is
/// deeper, and every well after it is shallower (of equally deep wells the
/// last is reported).
pub proof fn law_reported_well_is_deepest(ws: Seq<(usize, usize, usize)>)
    ensures
        deepest_well(ws) is None <==> ws.len() == 0,
        deepest_well(ws) matches Some(w) ==> exists|k: int|
            0 <= k < ws.len() && ws[k] == w && (forall|j: int| 0 <= j < ws.len() ==> (#[trigger] ws[j]).2 <= w.2) && (
            forall|j: int| k < j < ws.len() ==> (#[trigger] ws[j]).2 < w.2),
    decreases ws.len(),
{
    if ws.len() > 0 {
        let init = ws.drop_last();
        law_reported_well_is_deepest(init);
        let last = ws[ws.len() - 1];
        let n = ws.len() as int;
        match deepest_well(init) {
            None => {
                assert(init.len() == 0);
                assert(ws[0] == last);
            },
            Some(p) => {
                let k0 = choose|k: int|
                    0 <= k < init.len() && init[k] == p && (forall|j: int|
                        0 <= j < init.len() ==> (#[trigger] init[j]).2 <= p.2) && (forall|j: int|
                        k < j < init.len() ==> (#[trigger] init[j]).2 < p.2);
                if last.2 >= p.2 {
                    assert forall|j: int| 0 <= j < n implies (#[trigger] ws[j]).2 <= last.2 by {
                        if j < n - 1 {
                            assert(ws[j] == init[j]);
                        }
                    }
                    assert(ws[n - 1] == last);
                } else {
                    assert(ws[k0] == init[k0]);
                    assert forall|j: int| 0 <= j < n implies (#[trigger] ws[j]).2 <= p.2 by {
                        if j < n - 1 {
                            assert(ws[j] == init[j]);
                        }
                    }
                    assert forall|j: int| k0 < j < n implies (#[trigger] ws[j]).2 < p.2 by {
                        if j < n - 1 {
                            assert(ws[j] == init[j]);
                        }
                    }
                }
            },
        }
    }
}

/// Row `y` of lane `lane_id` has a hole.
spec fn row_has_hole(g: Seq<Seq<bool>>, lane_id: int, y: int) -> bool {
    exists|x: int|
        spec_lane_x_range(lane_id).0 <= x <= spec_lane_x_range(lane_id).1 && #[trigger] is_hole(g, x, y)
}

/// Either no row below `n` holds a hole of the lane, or there is a lowest such row.
proof fn lemma_lowest_hole_row(g: Seq<Seq<bool>>, lane_id: int, n: int)
    requires
        0 <= n,
    ensures
        (forall|y: int| 0 <= y < n ==> !#[trigger] row_has_hole(g, lane_id, y)) || exists|y0: int|
            0 <= y0 < n && #[trigger] row_has_hole(g, lane_id, y0) && forall|y: int|
                0 <= y < y0 ==> !#[trigger] row_has_hole(g, lane_id, y),
    decreases n,
{
    if n > 0 {
        lemma_lowest_hole_row(g, lane_id, n - 1);
    }
}

/// Every field and lane has a deepest-hole answer.
proof fn lemma_deepest_hole_exists(g: Seq<Seq<bool>>, lane_id: int)
    requires
        0 <= lane_id < LANE_COUNT,
    ensures
        deepest_hole_spec(g, lane_id, deepest_hole_of(g, lane_id)),
{
    let lo = spec_lane_x_range(lane_id).0;
    let hi = spec_lane_x_range(lane_id).1;
    let d: Option<(usize, usize, bool)>;
    if lane_has_hole(g, lane_id) {
        let (hx, hy) = choose|x: int, y: int| lo <= x <= hi && #[trigger] is_hole(g, x, y);
        lemma_height_below(g, hx, LANE_HEIGHT as int);
        assert(row_has_hole(g, lane_id, hy));
        lemma_lowest_hole_row(g, lane_id, LANE_HEIGHT as int);
        let y0 = choose|y0: int|
            0 <= y0 < LANE_HEIGHT && #[trigger] row_has_hole(g, lane_id, y0) && forall|y: int|
                0 <= y < y0 ==> !#[trigger] row_has_hole(g, lane_id, y);
        let x0 = if is_hole(g, lo, y0) {
            lo
        } else if is_hole(g, lo + 1, y0) {
            lo + 1
        } else {
            lo + 2
        };
        assert(is_hole(g, x0, y0));
        assert forall|x2: int, y2: int| lo <= x2 <= hi && #[trigger] is_hole(g, x2, y2) implies y0 <= y2 && (y2 == y0
            ==> x0 <= x2) by {
            assert(row_has_hole(g, lane_id, y2));
        }
        d = Some((x0 as usize, y0 as usize, true));
    } else if sunken_column(g, lane_id, lo) || sunken_column(g, lane_id, lo + 1) || sunken_column(g, lane_id, lo + 2) {
        let x0 = if sunken_column(g, lane_id, lo) {
            lo
        } else if sunken_column(g, lane_id, lo + 1) {
            lo + 1
        } else {
            lo + 2
        };
        lemma_height_below(g, x0, LANE_HEIGHT as int);
        d = Some((x0 as usize, column_height(g, x0) as usize, false));
    } else {
        d = None;
    }
    assert(deepest_hole_spec(g, lane_id, d));
    lemma_deepest_hole_of(g, lane_id, d);
}

/// When a lane hurries (the pace `determine_autonomous_pace` returns): it
/// soft-drops whenever at most one of its three cells on the target line is
/// filled; with two or more filled it keeps the normal pace while it has a
/// covered hole (waiting for the rows above to clear), soft-drops when it has
/// no hole but an open dip (a column well below the lane's average), and keeps
/// the normal pace when it has neither.
pub proof fn law_pace_hurries_for_open_dips_and_sparse_lines(g: Seq<Seq<bool>>, lane_id: int)
    requires
        0 <= lane_id < LANE_COUNT,
    ensures
        ({
            let pace = pace_rule(lane_fill_at_target(g, lane_id), deepest_hole_of(g, lane_id));
            let lo = spec_lane_x_range(lane_id).0;
            let hi = spec_lane_x_range(lane_id).1;
            let dip = exists|x: int| lo <= x <= hi && #[trigger] sunken_column(g, lane_id, x);
            &&& lane_fill_at_target(g, lane_id) <= 1 ==> pace == LanePace::SoftDrop
            &&& lane_fill_at_target(g, lane_id) >= 2 && lane_has_hole(g, lane_id) ==> pace == LanePace::Normal
            &&& lane_fill_at_target(g, lane_id) >= 2 && !lane_has_hole(g, lane_id) && dip ==> pace == LanePace::SoftDrop
            &&& lane_fill_at_target(g, lane_id) >= 2 && !lane_has_hole(g, lane_id) && !dip ==> pace == LanePace::Normal
        }),
{
    lemma_deepest_hole_exists(g, lane_id);
    let d = deepest_hole_of(g, lane_id);
    let lo = spec_lane_x_range(lane_id).0;
    match d {
        Some((x, y, true)) => {
            assert(is_hole(g, x as int, y as int));
        },
        Some((x, y, false)) => {
            assert(sunken_column(g, lane_id, x as int));
        },
        None => {},
    }
}

/// Where a rotation lands: in place when the rotated piece is free there,
/// otherwise shifted by the first of left, right, up, up-left, up-right and
/// down (one cell each) that frees it, and nowhere when none does.
pub proof fn law_rotation_kick_order(
    g: Seq<Seq<bool>>,
    offs: Seq<(i32, i32)>,
    x: int,
    y: int,
    this: u64,
    falling: Seq<(u64, Vec<(i32, i32)>)>,
)
    ensures
        first_free_kick(g, offs, x, y, this, falling, 0) == if !collides_at(g, offs, x, y, this, falling) {
            Some((x as i32, y as i32))
        } else if !collides_at(g, offs, x - 1, y, this, falling) {
            Some(((x - 1) as i32, y as i32))
        } else if !collides_at(g, offs, x + 1, y, this, falling) {
            Some(((x + 1) as i32, y as i32))
        } else if !collides_at(g, offs, x, y + 1, this, falling) {
            Some((x as i32, (y + 1) as i32))
        } else if !collides_at(g, offs, x - 1, y + 1, this, falling) {
            Some(((x - 1) as i32, (y + 1) as i32))
        } else if !collides_at(g, offs, x + 1, y + 1, this, falling) {
            Some(((x + 1) as i32, (y + 1) as i32))
        } else if !collides_at(g, offs, x, y - 1, this, falling) {
            Some((x as i32, (y - 1) as i32))
        } else {
            None
        },
{
    reveal_with_fuel(first_free_kick, 8);
}

/// Even draws give the straight piece and odd draws the corner piece, so
/// consecutive draws always give different pieces.
pub proof fn law_draw_parity(v: u32)
    ensures
        kind_for_draw(v) == TrominoKind::Straight <==> v % 2 == 0,
        kind_for_draw(v) == TrominoKind::Corner <==> v % 2 == 1,
        v < u32::MAX ==> kind_for_draw(v) != kind_for_draw((v + 1) as u32),
{
}

} // verus!
