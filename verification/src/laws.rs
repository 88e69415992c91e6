//! Properties of the game rules that hold across operations.

use vstd::prelude::*;
use crate::board::collision::locked_as_specified;
use crate::board::line_clear::cleared_as_specified;
use crate::board::model::{grid_wf, column_height, deepest_hole_spec, filled, full_row_indices, kept_rows, lane_has_hole, lemma_height_below, piece_covers, clear_score};
use crate::board::rows::{blank_row, empty_row, grid_cleared, grid_full_pred, grid_full_rows, grid_locked, grid_row_full, wide_cleared};
use crate::board::model::{empty_count, hole_below_row, holes_upto, is_hole, total_holes, well_at, wells_in};
use crate::board::{spec_is_border_column, spec_lane_x_range, GlobalBoard};
use crate::config::{LANE_COUNT, LANE_HEIGHT, TOTAL_GRID_WIDTH};
use crate::game::signals::reported_hole;
use crate::game::HoleStatus;
use crate::ai::eval::compact_eval::cells_set;
use crate::ai::pathfinding::aerial::{aerial_start, lemma_first_kick};
use crate::ai::pathfinding::explore::{lemma_offsets_shape, rules_of};
use crate::ai::pathfinding::spawn_drop::{spawn_rules, wall_clear_row};
use crate::ai::search::aerial_search::aerial_landing;
use crate::ai::search::landing::{lemma_rest_range, lemma_spawn_landing_range};
use crate::ai::search::spawn_search::{clear_of, spawn_landing};
use crate::board::model::piece_fits;
use crate::falling::{collides_at, first_free_kick, rotation_kicks};
use crate::tromino::TrominoKind;
use crate::ai::eval::{features_of, PlacementFeatures};
use crate::ai::types::PredictedPlacement;
use crate::game::LaneSignal;

verus! {

/// Every kept row is one the predicate rejects, and each kept row `k` is
/// the row `j` of the input for some `j >= k`.
proof fn lemma_kept_rows_origin<T>(rows: Seq<T>, full: spec_fn(T) -> bool, n: int)
    requires
        0 <= n <= rows.len(),
    ensures
        kept_rows(rows, full, n).len() <= n,
        forall|k: int|
            0 <= k < kept_rows(rows, full, n).len() ==> !full(#[trigger] kept_rows(rows, full, n)[k]) && exists|j: int|
                k <= j < n && rows[j] == kept_rows(rows, full, n)[k],
    decreases n,
{
    if n > 0 {
        lemma_kept_rows_origin(rows, full, n - 1);
        let prev = kept_rows(rows, full, n - 1);
        let cur = kept_rows(rows, full, n);
        assert forall|k: int| 0 <= k < cur.len() implies !full(#[trigger] cur[k]) && exists|j: int|
            k <= j < n && rows[j] == cur[k] by {
            if k < prev.len() {
                assert(cur[k] == prev[k]);
                let j = choose|j: int| k <= j < n - 1 && rows[j] == prev[k];
                assert(k <= j < n && rows[j] == cur[k]);
            } else {
                assert(cur[k] == rows[n - 1]);
                assert(k <= n - 1 < n);
            }
        }
    }
}

/// When none of the first `n` rows is full, all of them are kept and none is reported full.
proof fn lemma_nothing_full<T>(rows: Seq<T>, full: spec_fn(T) -> bool, n: int)
    requires
        0 <= n <= rows.len(),
        forall|i: int| 0 <= i < n ==> !full(#[trigger] rows[i]),
    ensures
        kept_rows(rows, full, n) == rows.subrange(0, n),
        full_row_indices(rows, full, n).len() == 0,
    decreases n,
{
    if n > 0 {
        lemma_nothing_full(rows, full, n - 1);
        assert(rows.subrange(0, n - 1).push(rows[n - 1]) =~= rows.subrange(0, n));
    }
}

/// After full rows are cleared no row of the field is full.
pub proof fn law_clear_leaves_no_full_row(g: Seq<Seq<bool>>)
    requires
        g.len() == LANE_HEIGHT,
    ensures
        forall|y: int| 0 <= y < LANE_HEIGHT ==> !grid_row_full(#[trigger] grid_cleared(g)[y]),
{
    lemma_kept_rows_origin(g, grid_full_pred(), LANE_HEIGHT as int);
    let kept = kept_rows(g, grid_full_pred(), LANE_HEIGHT as int);
    assert forall|y: int| 0 <= y < LANE_HEIGHT implies !grid_row_full(#[trigger] grid_cleared(g)[y]) by {
        if y < kept.len() {
            assert(!grid_full_pred()(kept[y]));
        } else {
            assert(!empty_row()[0]);
        }
    }
}

/// Clearing twice clears nothing more: the second clear finds no full row and
/// leaves the field as the first left it.
pub proof fn law_clear_idempotent(g: Seq<Seq<bool>>)
    requires
        g.len() == LANE_HEIGHT,
    ensures
        grid_full_rows(grid_cleared(g)).len() == 0,
        grid_cleared(grid_cleared(g)) == grid_cleared(g),
{
    let c = grid_cleared(g);
    law_clear_leaves_no_full_row(g);
    assert forall|i: int| 0 <= i < LANE_HEIGHT implies !grid_full_pred()(#[trigger] c[i]) by {}
    lemma_nothing_full(c, grid_full_pred(), LANE_HEIGHT as int);
    assert(c.subrange(0, LANE_HEIGHT as int) =~= c);
    assert(grid_cleared(c) =~= c);
}

/// Clearing rows never raises a column: every column is at most as high as before.
pub proof fn law_clear_never_raises_columns(g: Seq<Seq<bool>>, x: int)
    requires
        g.len() == LANE_HEIGHT,
        0 <= x < TOTAL_GRID_WIDTH,
    ensures
        column_height(grid_cleared(g), x) <= column_height(g, x),
{
    let c = grid_cleared(g);
    let kept = kept_rows(g, grid_full_pred(), LANE_HEIGHT as int);
    lemma_kept_rows_origin(g, grid_full_pred(), LANE_HEIGHT as int);
    lemma_height_below(c, x, LANE_HEIGHT as int);
    lemma_height_below(g, x, LANE_HEIGHT as int);
    let h = column_height(c, x);
    if h > 0 {
        let y = h - 1;
        assert(filled(c, x, y));
        assert(y < kept.len()) by {
            if y >= kept.len() {
                assert(c[y] == empty_row());
            }
        }
        assert(c[y] == kept[y]);
        let j = choose|j: int| y <= j < LANE_HEIGHT && g[j] == kept[y];
        assert(filled(g, x, j));
    }
}

/// Locking a piece fills every cell of it that lies on the field, keeps every
/// occupied cell occupied, and changes no other cell.
pub proof fn law_lock_writes_exactly_the_piece(g: Seq<Seq<bool>>, offs: Seq<(i32, i32)>, bx: int, by: int)
    requires
        grid_wf(g),
    ensures
        forall|i: int|
            0 <= i < offs.len() && 0 <= bx + #[trigger] offs[i].0 < TOTAL_GRID_WIDTH && 0 <= by + offs[i].1 < LANE_HEIGHT
                ==> filled(grid_locked(g, offs, bx, by), bx + offs[i].0, by + offs[i].1),
        forall|x: int, y: int| #[trigger] filled(g, x, y) && x < TOTAL_GRID_WIDTH ==> filled(grid_locked(g, offs, bx, by), x, y),
        forall|x: int, y: int|
            0 <= x < TOTAL_GRID_WIDTH && 0 <= y < LANE_HEIGHT && !piece_covers(offs, bx, by, x, y) ==> #[trigger] filled(
                grid_locked(g, offs, bx, by),
                x,
                y,
            ) == filled(g, x, y),
{
    assert forall|i: int|
        0 <= i < offs.len() && 0 <= bx + #[trigger] offs[i].0 < TOTAL_GRID_WIDTH && 0 <= by + offs[i].1 < LANE_HEIGHT implies filled(
        grid_locked(g, offs, bx, by),
        bx + offs[i].0,
        by + offs[i].1,
    ) by {
        assert(piece_covers(offs, bx, by, bx + offs[i].0, by + offs[i].1));
    }
}

/// Locking a piece inside the field and then clearing its full rows scores 10
/// for the lock plus 300, 800 or 1800 for one, two or three rows (500 a row
/// beyond), counts the cleared rows, and advances the version once per step.
pub proof fn law_lock_then_clear_scoring(
    before: GlobalBoard,
    mid: GlobalBoard,
    after: GlobalBoard,
    player_id: usize,
    offs: Seq<(i32, i32)>,
    bx: int,
    by: int,
    lines: nat,
)
    requires
        locked_as_specified(before, mid, player_id, offs, bx, by, true),
        cleared_as_specified(mid, after),
        lines == crate::board::line_clear::full_cell_rows(mid.cells).len(),
    ensures
        after.score == before.score + 10 + clear_score(lines as int),
        after.lines_cleared == before.lines_cleared + lines,
        lines > 0 ==> after.board_version == before.board_version.wrapping_add(1).wrapping_add(1),
        lines == 0 ==> after.board_version == before.board_version.wrapping_add(1),
{
}

/// Lanes are three columns wide, lie on the field, contain no separator
/// column, and neighbouring lanes are parted by exactly one separator column.
pub proof fn law_lane_geometry(lane_id: int)
    requires
        0 <= lane_id < LANE_COUNT,
    ensures
        spec_lane_x_range(lane_id).1 - spec_lane_x_range(lane_id).0 == 2,
        0 <= spec_lane_x_range(lane_id).0,
        spec_lane_x_range(lane_id).1 < TOTAL_GRID_WIDTH,
        forall|x: int|
            spec_lane_x_range(lane_id).0 <= x <= spec_lane_x_range(lane_id).1 ==> !#[trigger] spec_is_border_column(x),
        lane_id + 1 < LANE_COUNT ==> spec_is_border_column(spec_lane_x_range(lane_id).1 + 1)
            && spec_lane_x_range(lane_id + 1).0 == spec_lane_x_range(lane_id).1 + 2,
{
}

/// A lane reports a hole waiting for clearance exactly when it has a covered
/// hole, and reports no hole exactly when it has neither a hole nor a sunken column.
pub proof fn law_reported_hole_status(g: Seq<Seq<bool>>, lane_id: int, d: Option<(usize, usize, bool)>)
    requires
        0 <= lane_id < LANE_COUNT,
        deepest_hole_spec(g, lane_id, d),
    ensures
        (reported_hole(d).1 == HoleStatus::WaitingForClearance) <==> lane_has_hole(g, lane_id),
        (reported_hole(d).1 == HoleStatus::ReadyForFill) ==> !lane_has_hole(g, lane_id),
        (reported_hole(d).1 == HoleStatus::NoHole) <==> reported_hole(d).0 is None,
{
    match d {
        Some((x, y, true)) => {
            assert(crate::board::model::is_hole(g, x as int, y as int));
        },
        _ => {},
    }
}

/// Number of occupied cells among the first `n` rows, counting the field's columns.
pub open spec fn cells_in_rows(rows: Seq<Seq<bool>>, n: int) -> int
    decreases n,
{
    if n <= 0 {
        0
    } else {
        cells_in_rows(rows, n - 1) + cells_set(rows[n - 1], TOTAL_GRID_WIDTH as int)
    }
}

proof fn lemma_rows_prefix(a: Seq<Seq<bool>>, b: Seq<Seq<bool>>, n: int)
    requires
        forall|i: int| 0 <= i < n ==> a[i] == b[i],
    ensures
        cells_in_rows(a, n) == cells_in_rows(b, n),
    decreases n,
{
    if n > 0 {
        lemma_rows_prefix(a, b, n - 1);
    }
}

proof fn lemma_all_set(row: Seq<bool>, n: int)
    requires
        0 <= n,
        forall|i: int| 0 <= i < n ==> #[trigger] row[i],
    ensures
        cells_set(row, n) == n,
    decreases n,
{
    if n > 0 {
        lemma_all_set(row, n - 1);
    }
}

proof fn lemma_none_set(row: Seq<bool>, n: int)
    requires
        forall|i: int| 0 <= i < n ==> !#[trigger] row[i],
    ensures
        cells_set(row, n) == 0,
    decreases n,
{
    if n > 0 {
        lemma_none_set(row, n - 1);
    }
}

/// The kept rows hold all cells of the first `n` rows but those of the full rows.
proof fn lemma_kept_cells(g: Seq<Seq<bool>>, n: int)
    requires
        0 <= n <= g.len(),
    ensures
        cells_in_rows(kept_rows(g, grid_full_pred(), n), kept_rows(g, grid_full_pred(), n).len() as int) + TOTAL_GRID_WIDTH
            * full_row_indices(g, grid_full_pred(), n).len() == cells_in_rows(g, n),
    decreases n,
{
    if n > 0 {
        lemma_kept_cells(g, n - 1);
        let prev = kept_rows(g, grid_full_pred(), n - 1);
        let fprev = full_row_indices(g, grid_full_pred(), n - 1);
        assert(grid_full_pred()(g[n - 1]) == grid_row_full(g[n - 1]));
        if grid_row_full(g[n - 1]) {
            lemma_all_set(g[n - 1], TOTAL_GRID_WIDTH as int);
            assert(kept_rows(g, grid_full_pred(), n) == prev);
            assert(full_row_indices(g, grid_full_pred(), n) == fprev.push((n - 1) as usize));
            let l = fprev.len() as int;
            assert(TOTAL_GRID_WIDTH * (l + 1) == TOTAL_GRID_WIDTH * l + TOTAL_GRID_WIDTH) by (nonlinear_arith);
        } else {
            let cur = prev.push(g[n - 1]);
            assert(kept_rows(g, grid_full_pred(), n) == cur);
            assert(full_row_indices(g, grid_full_pred(), n) == fprev);
            lemma_rows_prefix(cur, prev, prev.len() as int);
            assert(cur[prev.len() as int] == g[n - 1]);
            assert(cells_in_rows(cur, cur.len() as int) == cells_in_rows(cur, prev.len() as int) + cells_set(
                g[n - 1],
                TOTAL_GRID_WIDTH as int,
            ));
        }
    }
}

/// Clearing removes exactly the cells of the full rows: the field keeps every
/// other occupied cell.
pub proof fn law_clear_removes_only_full_rows(g: Seq<Seq<bool>>)
    requires
        g.len() == LANE_HEIGHT,
    ensures
        cells_in_rows(grid_cleared(g), LANE_HEIGHT as int) == cells_in_rows(g, LANE_HEIGHT as int) - TOTAL_GRID_WIDTH
            * grid_full_rows(g).len(),
{
    let kept = kept_rows(g, grid_full_pred(), LANE_HEIGHT as int);
    let c = grid_cleared(g);
    lemma_kept_cells(g, LANE_HEIGHT as int);
    lemma_kept_rows_origin(g, grid_full_pred(), LANE_HEIGHT as int);
    lemma_rows_prefix(c, kept, kept.len() as int);
    lemma_cleared_tail(c, kept.len() as int, LANE_HEIGHT as int);
}

/// Rows from `k` on being empty, the first `m` rows hold as many cells as the first `k`.
proof fn lemma_cleared_tail(c: Seq<Seq<bool>>, k: int, m: int)
    requires
        0 <= k <= m <= c.len(),
        forall|y: int| k <= y < c.len() ==> #[trigger] c[y] == empty_row(),
    ensures
        cells_in_rows(c, m) == cells_in_rows(c, k),
    decreases m,
{
    if m > k {
        lemma_cleared_tail(c, k, m - 1);
        lemma_none_set(c[m - 1], TOTAL_GRID_WIDTH as int);
    }
}

/// A rotation that succeeds puts the piece where it hits no wall, no locked
/// cell and no other falling piece, within one column and one row of where it was.
pub proof fn law_rotation_lands_free(
    g: Seq<Seq<bool>>,
    offs: Seq<(i32, i32)>,
    x: int,
    y: int,
    this: u64,
    falling: Seq<(u64, Vec<(i32, i32)>)>,
    k: int,
)
    requires
        i32::MIN + 1 <= x <= i32::MAX - 1,
        i32::MIN + 1 <= y <= i32::MAX - 1,
        0 <= k,
    ensures
        first_free_kick(g, offs, x, y, this, falling, k) matches Some(p) ==> !collides_at(
            g,
            offs,
            p.0 as int,
            p.1 as int,
            this,
            falling,
        ) && x - 1 <= p.0 <= x + 1 && y - 1 <= p.1 <= y + 1,
    decreases 7 - k,
{
    if 0 <= k < 7 && collides_at(g, offs, x + rotation_kicks()[k].0, y + rotation_kicks()[k].1, this, falling) {
        law_rotation_lands_free(g, offs, x, y, this, falling, k + 1);
    }
}

/// Every placement the spawn search offers fits the field with the predicted
/// pieces locked in, takes no reserved cell, and lies on the field.
pub proof fn law_spawn_moves_are_free(
    future: GlobalBoard,
    lane_id: int,
    kind: TrominoKind,
    reserved: Seq<(i32, i32)>,
    air: Seq<(i32, i32)>,
    rot: usize,
    x: i32,
)
    requires
        0 <= lane_id < LANE_COUNT,
    ensures
        spawn_landing(future, lane_id, kind, reserved, air, rot, x) matches Some(y) ==> {
            &&& piece_fits(future.grid(), kind.spec_cell_offsets(rot as nat), x as int, y)
            &&& clear_of(reserved, kind.spec_cell_offsets(rot as nat), x as int, y)
            &&& 0 <= y < LANE_HEIGHT
        },
{
    if let Some(y) = spawn_landing(future, lane_id, kind, reserved, air, rot, x) {
        let offs = kind.spec_cell_offsets(rot as nat);
        lemma_spawn_landing_range(future, lane_id, kind, rot as nat, x, reserved, air);
        let rules = spawn_rules(future, lane_id, kind, rot as nat, reserved);
        let start = (spec_lane_x_range(lane_id).0 as i32, wall_clear_row(offs) as i32);
        lemma_offsets_shape(kind, rot as nat);
        assert(rules.fits(spec_lane_x_range(lane_id).0, wall_clear_row(offs)));
        lemma_rest_range(rules, start, x);
    }
}

/// Every placement the in-air search offers fits the field with the predicted
/// pieces locked in and takes no reserved cell.
pub proof fn law_aerial_moves_are_free(
    future: GlobalBoard,
    kind: TrominoKind,
    reserved: Seq<(i32, i32)>,
    sx: i32,
    sy: i32,
    rot: usize,
    x: i32,
)
    requires
        i32::MIN < sx < i32::MAX,
        i32::MIN < sy < i32::MAX,
    ensures
        aerial_landing(future, kind, reserved, sx, sy, rot, x) matches Some(y) ==> {
            &&& piece_fits(future.grid(), kind.spec_cell_offsets(rot as nat), x as int, y)
            &&& clear_of(reserved, kind.spec_cell_offsets(rot as nat), x as int, y)
        },
{
    if let Some(y) = aerial_landing(future, kind, reserved, sx, sy, rot, x) {
        let rules = rules_of(future, kind, rot as nat, reserved, None);
        lemma_first_kick(rules, sx as int, sy as int, 0);
        let start = aerial_start(rules, sx as int, sy as int).unwrap();
        lemma_rest_range(rules, start, x);
    }
}

/// The bitboard evaluation and the full-board evaluation measure the same
/// features: two feature sets that both describe a placement on fields with
/// the same occupancy agree in every field but the row-fill rows. (How the
/// features are weighted into a score is not part of this.)
pub proof fn law_evaluations_agree(
    a: PlacementFeatures,
    b: PlacementFeatures,
    current: Seq<Seq<bool>>,
    future: Seq<Seq<bool>>,
    p: int,
    kind: TrominoKind,
    rot: nat,
    x: int,
    y: int,
    others: Seq<PredictedPlacement>,
    sigs: Seq<LaneSignal>,
)
    requires
        features_of(a, current, future, p, kind, rot, x, y, others, sigs),
        features_of(b, current, future, p, kind, rot, x, y, others, sigs),
    ensures
        a.lines == b.lines,
        a.cooperative_lines == b.cooperative_lines,
        a.cooperative_lines <= a.lines,
        a.height_sum == b.height_sum,
        a.max_height == b.max_height,
        a.bumpiness == b.bumpiness,
        a.holes == b.holes,
        a.border_bridge == b.border_bridge,
        a.border_barrier == b.border_barrier,
        a.adjacency == b.adjacency,
        a.anti_roof == b.anti_roof,
        a.hole_fill == b.hole_fill,
        a.well_cooperation == b.well_cooperation,
        a.well_capping == b.well_capping,
        a.well_creation == b.well_creation,
        a.signal_cooperation == b.signal_cooperation,
        a.non_interference == b.non_interference,
        a.lane_distance == b.lane_distance,
        a.bottom_priority == b.bottom_priority,
        a.hole_clearance == b.hole_clearance,
{
}

/// Locking a piece never lowers a column.
pub proof fn law_lock_never_lowers_columns(g: Seq<Seq<bool>>, offs: Seq<(i32, i32)>, bx: int, by: int, x: int)
    requires
        grid_wf(g),
        0 <= x < TOTAL_GRID_WIDTH,
    ensures
        column_height(g, x) <= column_height(grid_locked(g, offs, bx, by), x),
{
    let l = grid_locked(g, offs, bx, by);
    lemma_height_below(g, x, LANE_HEIGHT as int);
    lemma_height_below(l, x, LANE_HEIGHT as int);
    let h = column_height(g, x);
    if h > 0 {
        assert(filled(g, x, h - 1));
        assert(filled(l, x, h - 1));
    }
}

/// Column `x` lies in lane `l`.
pub open spec fn in_lane(l: int, x: int) -> bool {
    spec_lane_x_range(l).0 <= x <= spec_lane_x_range(l).1
}

/// The field's columns split into lanes and separators: each column is either
/// a separator column or lies in exactly one lane (the one numbered `x / 4`).
pub proof fn law_columns_partition(x: int)
    requires
        0 <= x < TOTAL_GRID_WIDTH,
    ensures
        spec_is_border_column(x) <==> !(exists|l: int| 0 <= l < LANE_COUNT && #[trigger] in_lane(l, x)),
        forall|l1: int, l2: int| #[trigger] in_lane(l1, x) && #[trigger] in_lane(l2, x) ==> l1 == l2,
        !spec_is_border_column(x) ==> x / 4 < LANE_COUNT && in_lane(x / 4, x),
{
    let q = x / 4;
    assert(x == 4 * q + x % 4 && 0 <= x % 4 < 4) by (nonlinear_arith)
        requires
            q == x / 4,
            0 <= x,
    ;
    assert((x + 1) % 4 == 0 <==> x % 4 == 3) by (nonlinear_arith)
        requires
            x == 4 * q + x % 4,
            0 <= x % 4 < 4,
    ;
    assert(spec_is_border_column(x) <==> x % 4 == 3);
    assert forall|l: int| #[trigger] in_lane(l, x) implies l == q && !spec_is_border_column(x) by {
        assert(4 * l <= x <= 4 * l + 2);
    }
    if !spec_is_border_column(x) {
        assert(in_lane(q, x));
    }
}

/// Clearing the bitboard's words twice clears nothing more: after one clear
/// no word is full across the field, and a second clear leaves every word,
/// bits beyond the field included, as the first left it.
pub proof fn law_bitboard_clear_idempotent(w: Seq<Seq<bool>>)
    requires
        w.len() == LANE_HEIGHT,
    ensures
        full_row_indices(wide_cleared(w, 32), grid_full_pred(), LANE_HEIGHT as int).len() == 0,
        wide_cleared(wide_cleared(w, 32), 32) == wide_cleared(w, 32),
{
    let c = wide_cleared(w, 32);
    lemma_kept_rows_origin(w, grid_full_pred(), LANE_HEIGHT as int);
    let kept = kept_rows(w, grid_full_pred(), LANE_HEIGHT as int);
    assert forall|i: int| 0 <= i < LANE_HEIGHT implies !grid_full_pred()(#[trigger] c[i]) by {
        if i < kept.len() {
            assert(!grid_full_pred()(kept[i]));
        } else {
            assert(!blank_row(32)[0]);
        }
    }
    lemma_nothing_full(c, grid_full_pred(), LANE_HEIGHT as int);
    assert(c.subrange(0, LANE_HEIGHT as int) =~= c);
    assert(wide_cleared(c, 32) =~= c);
}

proof fn lemma_wells_split(g: Seq<Seq<bool>>, a: int, b: int, c: int)
    requires
        0 <= a <= b <= c <= TOTAL_GRID_WIDTH,
    ensures
        wells_in(g, a, c) == wells_in(g, a, b) + wells_in(g, b, c),
        forall|i: int| 0 <= i < wells_in(g, b, c).len() ==> b <= (#[trigger] wells_in(g, b, c)[i]).0 < c,
    decreases c - b,
{
    if c > b {
        lemma_wells_split(g, a, b, c - 1);
        let prev = wells_in(g, b, c - 1);
        match well_at(g, c - 1) {
            Some(w) => {
                assert(wells_in(g, a, c) =~= wells_in(g, a, b) + wells_in(g, b, c));
                assert forall|i: int| 0 <= i < wells_in(g, b, c).len() implies b <= (#[trigger] wells_in(g, b, c)[i]).0
                    < c by {
                    if i < prev.len() {
                        assert(wells_in(g, b, c)[i] == prev[i]);
                    } else {
                        assert(wells_in(g, b, c)[i] == w);
                        assert(well_at(g, c - 1) == Some(w));
                        assert(w.0 == c - 1);
                    }
                }
            },
            None => {},
        }
    } else {
        assert(wells_in(g, b, c) =~= seq![]);
        assert(wells_in(g, a, c) =~= wells_in(g, a, b) + wells_in(g, b, c));
    }
}

/// A lane's wells are the slice of the field's wells that lie in its
/// columns: the field's wells are those left of the lane, then the lane's,
/// then those right of it, each in increasing column order.
pub proof fn law_lane_wells_are_a_slice(g: Seq<Seq<bool>>, lane_id: int)
    requires
        0 <= lane_id < LANE_COUNT,
    ensures
        ({
            let lo = spec_lane_x_range(lane_id).0;
            let hi = spec_lane_x_range(lane_id).1 + 1;
            &&& wells_in(g, 0, TOTAL_GRID_WIDTH as int) == wells_in(g, 0, lo) + wells_in(g, lo, hi) + wells_in(
                g,
                hi,
                TOTAL_GRID_WIDTH as int,
            )
            &&& forall|i: int| 0 <= i < wells_in(g, lo, hi).len() ==> lo <= (#[trigger] wells_in(g, lo, hi)[i]).0 < hi
            &&& forall|i: int| 0 <= i < wells_in(g, 0, lo).len() ==> (#[trigger] wells_in(g, 0, lo)[i]).0 < lo
            &&& forall|i: int|
                0 <= i < wells_in(g, hi, TOTAL_GRID_WIDTH as int).len() ==> hi <= (#[trigger] wells_in(
                    g,
                    hi,
                    TOTAL_GRID_WIDTH as int,
                )[i]).0
        }),
{
    let lo = spec_lane_x_range(lane_id).0;
    let hi = spec_lane_x_range(lane_id).1 + 1;
    lemma_wells_split(g, 0, lo, hi);
    lemma_wells_split(g, 0, hi, TOTAL_GRID_WIDTH as int);
    lemma_wells_split(g, 0, 0, lo);
    lemma_wells_split(g, lo, hi, TOTAL_GRID_WIDTH as int);
    assert(wells_in(g, 0, 0) =~= seq![]);
    assert(wells_in(g, 0, TOTAL_GRID_WIDTH as int) =~= wells_in(g, 0, lo) + wells_in(g, lo, hi) + wells_in(
        g,
        hi,
        TOTAL_GRID_WIDTH as int,
    ));
}

proof fn lemma_empty_count_zero(g: Seq<Seq<bool>>, x: int, lo: int, hi: int)
    ensures
        empty_count(g, x, lo, hi) == 0 <==> forall|y: int| lo <= y < hi ==> #[trigger] filled(g, x, y),
    decreases hi - lo,
{
    if lo < hi {
        lemma_empty_count_zero(g, x, lo + 1, hi);
        if empty_count(g, x, lo, hi) == 0 {
            assert forall|y: int| lo <= y < hi implies #[trigger] filled(g, x, y) by {
                if y > lo {
                    assert(lo + 1 <= y < hi);
                }
            }
        }
        if forall|y: int| lo <= y < hi ==> #[trigger] filled(g, x, y) {
            assert(filled(g, x, lo));
            assert forall|y: int| lo + 1 <= y < hi implies #[trigger] filled(g, x, y) by {
                assert(lo <= y < hi);
            }
        }
    }
}

proof fn lemma_holes_upto_zero(g: Seq<Seq<bool>>, n: int)
    requires
        0 <= n <= TOTAL_GRID_WIDTH,
    ensures
        holes_upto(g, n) == 0 <==> forall|x: int, y: int| 0 <= x < n ==> !#[trigger] is_hole(g, x, y),
    decreases n,
{
    if n > 0 {
        lemma_holes_upto_zero(g, n - 1);
        let x = n - 1;
        lemma_empty_count_zero(g, x, 0, column_height(g, x) as int);
        if holes_upto(g, n) == 0 {
            assert forall|xx: int, y: int| 0 <= xx < n implies !#[trigger] is_hole(g, xx, y) by {
                if xx == x && is_hole(g, xx, y) {
                    assert(filled(g, x, y));
                }
            }
        }
        if forall|xx: int, y: int| 0 <= xx < n ==> !#[trigger] is_hole(g, xx, y) {
            assert forall|xx: int, y: int| 0 <= xx < n - 1 implies !#[trigger] is_hole(g, xx, y) by {
                assert(!is_hole(g, xx, y));
            }
            assert forall|y: int| 0 <= y < column_height(g, x) implies #[trigger] filled(g, x, y) by {
                assert(!is_hole(g, x, y));
            }
        }
    }
}

/// The field has no hole exactly when its hole count is zero.
pub proof fn law_no_hole_iff_zero_count(g: Seq<Seq<bool>>)
    ensures
        total_holes(g) == 0 <==> forall|x: int, y: int| !#[trigger] is_hole(g, x, y),
{
    lemma_holes_upto_zero(g, TOTAL_GRID_WIDTH as int);
}

/// The lowest and highest hole rows (as `lowest_hole_y` and `highest_hole_y`
/// report them) exist exactly when the hole count is positive, and the lowest
/// is at most the highest.
pub proof fn law_hole_rows(g: Seq<Seq<bool>>, lowest: Option<usize>, highest: Option<usize>)
    requires
        match lowest {
            None => forall|x: int, y: int| !#[trigger] is_hole(g, x, y),
            Some(m) => (exists|x: int| #[trigger] is_hole(g, x, m as int)) && forall|x: int, y: int|
                #[trigger] is_hole(g, x, y) ==> m <= y,
        },
        match highest {
            None => forall|x: int, y: int| !#[trigger] is_hole(g, x, y),
            Some(m) => (exists|x: int| #[trigger] is_hole(g, x, m as int)) && forall|x: int, y: int|
                #[trigger] is_hole(g, x, y) ==> y <= m,
        },
    ensures
        lowest is None <==> total_holes(g) == 0,
        highest is None <==> total_holes(g) == 0,
        lowest matches Some(a) ==> (highest matches Some(b) && a <= b),
{
    law_no_hole_iff_zero_count(g);
    match lowest {
        Some(a) => {
            let x = choose|x: int| #[trigger] is_hole(g, x, a as int);
            match highest {
                Some(b) => {
                    assert(is_hole(g, x, a as int));
                },
                None => {
                    assert(!is_hole(g, x, a as int));
                },
            }
        },
        None => {
            match highest {
                Some(b) => {
                    let x = choose|x: int| #[trigger] is_hole(g, x, b as int);
                    assert(!is_hole(g, x, b as int));
                },
                None => {},
            }
        },
    }
}

/// A hole lies below row `y` exactly when some column filled at or above `y`
/// is empty below it: the field has a hole exactly when some row `1..19`
/// has one below it, and any row with a hole below lies above the lowest hole.
pub proof fn law_hole_below_row(g: Seq<Seq<bool>>, y: int, lowest: Option<usize>)
    requires
        grid_wf(g),
        match lowest {
            None => forall|x: int, y: int| !#[trigger] is_hole(g, x, y),
            Some(m) => (exists|x: int| #[trigger] is_hole(g, x, m as int)) && forall|x: int, y: int|
                #[trigger] is_hole(g, x, y) ==> m <= y,
        },
    ensures
        total_holes(g) > 0 <==> exists|r: int| 1 <= r < LANE_HEIGHT && #[trigger] hole_below_row(g, r),
        hole_below_row(g, y) ==> (lowest matches Some(m) && m < y),
{
    law_no_hole_iff_zero_count(g);
    if hole_below_row(g, y) {
        let (x, uy) = choose|x: int, uy: int|
            0 <= x < TOTAL_GRID_WIDTH && 0 <= uy < y && !#[trigger] filled(g, x, uy) && exists|ry: int|
                y <= ry < LANE_HEIGHT && #[trigger] filled(g, x, ry);
        let ry = choose|ry: int| y <= ry < LANE_HEIGHT && #[trigger] filled(g, x, ry);
        lemma_height_below(g, x, LANE_HEIGHT as int);
        assert(is_hole(g, x, uy));
    }
    if total_holes(g) > 0 {
        let (x, uy) = choose|x: int, uy: int| #[trigger] is_hole(g, x, uy);
        assert(is_hole(g, x, uy));
        lemma_height_below(g, x, LANE_HEIGHT as int);
        let h = column_height(g, x) as int;
        assert(filled(g, x, h - 1));
        assert(uy < h - 1);
        assert(hole_below_row(g, uy + 1));
    }
    assert forall|r: int| 1 <= r < LANE_HEIGHT && #[trigger] hole_below_row(g, r) implies total_holes(g) > 0 by {
        let (x, uy) = choose|x: int, uy: int|
            0 <= x < TOTAL_GRID_WIDTH && 0 <= uy < r && !#[trigger] filled(g, x, uy) && exists|ry: int|
                r <= ry < LANE_HEIGHT && #[trigger] filled(g, x, ry);
        let ry = choose|ry: int| r <= ry < LANE_HEIGHT && #[trigger] filled(g, x, ry);
        lemma_height_below(g, x, LANE_HEIGHT as int);
        assert(is_hole(g, x, uy));
    }
}

proof fn lemma_cells_set_flip(r: Seq<bool>, r2: Seq<bool>, x: int, n: int)
    requires
        0 <= n,
        forall|z: int| 0 <= z < n ==> #[trigger] r2[z] == (r[z] || z == x),
        0 <= x < n ==> !r[x],
    ensures
        cells_set(r2, n) == cells_set(r, n) + if 0 <= x < n { 1int } else { 0int },
    decreases n,
{
    if n > 0 {
        lemma_cells_set_flip(r, r2, x, n - 1);
        assert(r2[n - 1] == (r[n - 1] || n - 1 == x));
    }
}

proof fn lemma_rows_flip(g: Seq<Seq<bool>>, g2: Seq<Seq<bool>>, x: int, y: int, m: int)
    requires
        0 <= m,
        0 <= x < TOTAL_GRID_WIDTH,
        forall|i: int, z: int|
            0 <= i < m && 0 <= z < TOTAL_GRID_WIDTH ==> #[trigger] g2[i][z] == (g[i][z] || (i == y && z == x)),
        0 <= y < m ==> !g[y][x],
    ensures
        cells_in_rows(g2, m) == cells_in_rows(g, m) + if 0 <= y < m { 1int } else { 0int },
    decreases m,
{
    if m > 0 {
        lemma_rows_flip(g, g2, x, y, m - 1);
        let i = m - 1;
        if i == y {
            assert forall|z: int| 0 <= z < TOTAL_GRID_WIDTH implies #[trigger] g2[i][z] == (g[i][z] || z == x) by {}
            lemma_cells_set_flip(g[i], g2[i], x, TOTAL_GRID_WIDTH as int);
        } else {
            assert forall|z: int| 0 <= z < TOTAL_GRID_WIDTH implies #[trigger] g2[i][z] == (g[i][z] || z == -1) by {}
            lemma_cells_set_flip(g[i], g2[i], -1, TOTAL_GRID_WIDTH as int);
        }
    }
}

proof fn lemma_lock_prefix(g: Seq<Seq<bool>>, offs: Seq<(i32, i32)>, bx: int, by: int, k: int)
    requires
        grid_wf(g),
        0 <= k <= offs.len(),
        forall|i: int|
            0 <= i < offs.len() ==> 0 <= bx + #[trigger] offs[i].0 < TOTAL_GRID_WIDTH && 0 <= by + offs[i].1
                < LANE_HEIGHT && !g[by + offs[i].1][bx + offs[i].0],
        forall|i: int, j: int| 0 <= i < j < offs.len() ==> #[trigger] offs[i] != #[trigger] offs[j],
    ensures
        cells_in_rows(grid_locked(g, offs.take(k), bx, by), LANE_HEIGHT as int) == cells_in_rows(g, LANE_HEIGHT as int)
            + k,
    decreases k,
{
    if k == 0 {
        let g0 = grid_locked(g, offs.take(0), bx, by);
        assert forall|i: int, z: int| 0 <= i < LANE_HEIGHT && 0 <= z < TOTAL_GRID_WIDTH implies #[trigger] g0[i][z] == (
        g[i][z] || (i == -1 && z == 0)) by {
            assert(!piece_covers(offs.take(0), bx, by, z, i));
        }
        lemma_rows_flip(g, g0, 0, -1, LANE_HEIGHT as int);
    } else {
        lemma_lock_prefix(g, offs, bx, by, k - 1);
        let a = grid_locked(g, offs.take(k - 1), bx, by);
        let b = grid_locked(g, offs.take(k), bx, by);
        let cx = bx + offs[k - 1].0;
        let cy = by + offs[k - 1].1;
        assert forall|i: int, z: int| 0 <= i < LANE_HEIGHT && 0 <= z < TOTAL_GRID_WIDTH implies #[trigger] b[i][z] == (
        a[i][z] || (i == cy && z == cx)) by {
            if piece_covers(offs.take(k), bx, by, z, i) {
                let j = choose|j: int| 0 <= j < k && bx + #[trigger] offs.take(k)[j].0 == z && by + offs.take(k)[j].1 == i;
                if j < k - 1 {
                    assert(offs.take(k - 1)[j] == offs.take(k)[j]);
                    assert(piece_covers(offs.take(k - 1), bx, by, z, i));
                }
            }
            if piece_covers(offs.take(k - 1), bx, by, z, i) {
                let j = choose|j: int| 0 <= j < k - 1 && bx + #[trigger] offs.take(k - 1)[j].0 == z && by + offs.take(k - 1)[j].1 == i;
                assert(offs.take(k)[j] == offs.take(k - 1)[j]);
            }
            if i == cy && z == cx {
                assert(offs.take(k)[k - 1] == offs[k - 1]);
            }
        }
        assert(!a[cy][cx]) by {
            assert(!g[cy][cx]);
            if piece_covers(offs.take(k - 1), bx, by, cx, cy) {
                let j = choose|j: int| 0 <= j < k - 1 && bx + #[trigger] offs.take(k - 1)[j].0 == cx && by + offs.take(k - 1)[j].1 == cy;
                assert(offs.take(k - 1)[j] == offs[j]);
                assert(offs[j] != offs[k - 1]);
            }
        }
        lemma_rows_flip(a, b, cx, cy, LANE_HEIGHT as int);
    }
}

/// Locking a piece that fits with all its cells below the top adds exactly
/// its three cells to the field, after which the piece no longer fits there.
pub proof fn law_lock_adds_three_cells(g: Seq<Seq<bool>>, kind: TrominoKind, rot: nat, bx: int, by: int)
    requires
        grid_wf(g),
        piece_fits(g, kind.spec_cell_offsets(rot), bx, by),
        !crate::board::model::piece_overflows(kind.spec_cell_offsets(rot), by),
    ensures
        cells_in_rows(grid_locked(g, kind.spec_cell_offsets(rot), bx, by), LANE_HEIGHT as int) == cells_in_rows(
            g,
            LANE_HEIGHT as int,
        ) + 3,
        !piece_fits(grid_locked(g, kind.spec_cell_offsets(rot), bx, by), kind.spec_cell_offsets(rot), bx, by),
{
    let offs = kind.spec_cell_offsets(rot);
    lemma_offsets_shape(kind, rot);
    assert forall|i: int|
        0 <= i < offs.len() implies 0 <= bx + #[trigger] offs[i].0 < TOTAL_GRID_WIDTH && 0 <= by + offs[i].1 < LANE_HEIGHT
            && !g[by + offs[i].1][bx + offs[i].0] by {
        assert(!crate::board::model::occupied(g, bx + offs[i].0, by + offs[i].1));
        if by + offs[i].1 >= LANE_HEIGHT {
            assert(crate::board::model::piece_overflows(offs, by));
        }
    }
    assert(offs[0] != offs[1] && offs[0] != offs[2] && offs[1] != offs[2]);
    lemma_lock_prefix(g, offs, bx, by, 3);
    assert(offs.take(3) =~= offs);
    let l = grid_locked(g, offs, bx, by);
    assert(piece_covers(offs, bx, by, bx + offs[0].0, by + offs[0].1));
    assert(crate::board::model::occupied(l, bx + offs[0].0, by + offs[0].1));
}

/// Occupied cells of column `x` among the first `n` rows.
pub open spec fn column_cells(g: Seq<Seq<bool>>, x: int, n: int) -> nat
    decreases n,
{
    if n <= 0 {
        0
    } else {
        column_cells(g, x, n - 1) + if filled(g, x, n - 1) { 1nat } else { 0nat }
    }
}

/// Sum of the heights of the first `n` columns.
pub open spec fn heights_total(g: Seq<Seq<bool>>, n: int) -> int
    decreases n,
{
    if n <= 0 {
        0
    } else {
        heights_total(g, n - 1) + column_height(g, n - 1)
    }
}

/// Occupied cells of the first `n` columns among the first `m` rows, counted column by column.
pub open spec fn cells_by_columns(g: Seq<Seq<bool>>, n: int, m: int) -> int
    decreases n,
{
    if n <= 0 {
        0
    } else {
        cells_by_columns(g, n - 1, m) + column_cells(g, n - 1, m)
    }
}

proof fn lemma_empty_count_back(g: Seq<Seq<bool>>, x: int, lo: int, n: int)
    requires
        lo < n,
    ensures
        empty_count(g, x, lo, n) == empty_count(g, x, lo, n - 1) + if filled(g, x, n - 1) { 0int } else { 1int },
    decreases n - lo,
{
    if lo < n - 1 {
        lemma_empty_count_back(g, x, lo + 1, n);
        assert(empty_count(g, x, lo, n - 1) == (if filled(g, x, lo) { 0nat } else { 1nat }) + empty_count(
            g,
            x,
            lo + 1,
            n - 1,
        ));
    } else {
        assert(empty_count(g, x, lo + 1, n) == 0);
        assert(empty_count(g, x, lo, n - 1) == 0);
    }
}

proof fn lemma_empty_and_cells(g: Seq<Seq<bool>>, x: int, n: int)
    requires
        0 <= n,
    ensures
        empty_count(g, x, 0, n) + column_cells(g, x, n) == n,
    decreases n,
{
    if n > 0 {
        lemma_empty_and_cells(g, x, n - 1);
        lemma_empty_count_back(g, x, 0, n);
    }
}

proof fn lemma_cells_above_height(g: Seq<Seq<bool>>, x: int, n: int)
    requires
        column_height(g, x) <= n <= LANE_HEIGHT,
    ensures
        column_cells(g, x, n) == column_cells(g, x, column_height(g, x) as int),
    decreases n,
{
    lemma_height_below(g, x, LANE_HEIGHT as int);
    if n > column_height(g, x) {
        lemma_cells_above_height(g, x, n - 1);
        assert(!filled(g, x, n - 1));
    }
}

proof fn lemma_columns_add_row(g: Seq<Seq<bool>>, n: int, m: int)
    requires
        grid_wf(g),
        0 <= n <= TOTAL_GRID_WIDTH,
        0 < m <= LANE_HEIGHT,
    ensures
        cells_by_columns(g, n, m) == cells_by_columns(g, n, m - 1) + cells_set(g[m - 1], n),
    decreases n,
{
    if n > 0 {
        lemma_columns_add_row(g, n - 1, m);
        assert(filled(g, n - 1, m - 1) == g[m - 1][n - 1]);
    }
}

proof fn lemma_columns_rows(g: Seq<Seq<bool>>, m: int)
    requires
        grid_wf(g),
        0 <= m <= LANE_HEIGHT,
    ensures
        cells_by_columns(g, TOTAL_GRID_WIDTH as int, m) == cells_in_rows(g, m),
    decreases m,
{
    if m > 0 {
        lemma_columns_rows(g, m - 1);
        lemma_columns_add_row(g, TOTAL_GRID_WIDTH as int, m);
    } else {
        lemma_columns_zero(g, TOTAL_GRID_WIDTH as int);
    }
}

proof fn lemma_columns_zero(g: Seq<Seq<bool>>, n: int)
    requires
        0 <= n,
    ensures
        cells_by_columns(g, n, 0) == 0,
    decreases n,
{
    if n > 0 {
        lemma_columns_zero(g, n - 1);
    }
}

proof fn lemma_holes_as_heights(g: Seq<Seq<bool>>, n: int)
    requires
        0 <= n <= TOTAL_GRID_WIDTH,
    ensures
        holes_upto(g, n) == heights_total(g, n) - cells_by_columns(g, n, LANE_HEIGHT as int),
    decreases n,
{
    if n > 0 {
        lemma_holes_as_heights(g, n - 1);
        let x = n - 1;
        lemma_height_below(g, x, LANE_HEIGHT as int);
        lemma_empty_and_cells(g, x, column_height(g, x) as int);
        lemma_cells_above_height(g, x, LANE_HEIGHT as int);
    }
}

/// The number of holes is the sum of the column heights less the number of
/// occupied cells: every cell below a column's top is either occupied or a hole.
pub proof fn law_holes_are_heights_less_cells(g: Seq<Seq<bool>>)
    requires
        grid_wf(g),
    ensures
        total_holes(g) == heights_total(g, TOTAL_GRID_WIDTH as int) - cells_in_rows(g, LANE_HEIGHT as int),
{
    lemma_holes_as_heights(g, TOTAL_GRID_WIDTH as int);
    lemma_columns_rows(g, LANE_HEIGHT as int);
}

proof fn lemma_wells_listed(g: Seq<Seq<bool>>, lo: int, hi: int)
    requires
        0 <= lo <= hi <= TOTAL_GRID_WIDTH,
    ensures
        forall|i: int|
            0 <= i < wells_in(g, lo, hi).len() ==> {
                let w = #[trigger] wells_in(g, lo, hi)[i];
                &&& lo <= w.0 < hi
                &&& well_at(g, w.0 as int) == Some(w)
                &&& w.2 >= 2
            },
        forall|i: int, j: int|
            0 <= i < j < wells_in(g, lo, hi).len() ==> (#[trigger] wells_in(g, lo, hi)[i]).0 < (
            #[trigger] wells_in(g, lo, hi)[j]).0,
        forall|x: int| lo <= x < hi && #[trigger] well_at(g, x) is Some ==> wells_in(g, lo, hi).contains(well_at(g, x)->0),
    decreases hi - lo,
{
    if hi > lo {
        lemma_wells_listed(g, lo, hi - 1);
        let prev = wells_in(g, lo, hi - 1);
        let cur = wells_in(g, lo, hi);
        match well_at(g, hi - 1) {
            Some(w) => {
                assert(cur == prev.push(w));
                assert(w.0 == hi - 1);
                assert forall|i: int| 0 <= i < cur.len() implies {
                    let v = #[trigger] cur[i];
                    &&& lo <= v.0 < hi
                    &&& well_at(g, v.0 as int) == Some(v)
                    &&& v.2 >= 2
                } by {
                    if i < prev.len() {
                        assert(cur[i] == prev[i]);
                    } else {
                        assert(cur[i] == w);
                        lemma_height_below(g, hi - 2, LANE_HEIGHT as int);
                        lemma_height_below(g, hi, LANE_HEIGHT as int);
                        lemma_height_below(g, hi - 1, LANE_HEIGHT as int);
                        assert(w.2 >= 2);
                    }
                }
                assert forall|i: int, j: int| 0 <= i < j < cur.len() implies (#[trigger] cur[i]).0 < (
                #[trigger] cur[j]).0 by {
                    assert(cur[i] == prev[i]);
                    if j < prev.len() {
                        assert(cur[j] == prev[j]);
                    } else {
                        assert(lo <= prev[i].0 < hi - 1);
                    }
                }
                assert forall|x: int| lo <= x < hi && #[trigger] well_at(g, x) is Some implies cur.contains(
                    well_at(g, x)->0,
                ) by {
                    if x < hi - 1 {
                        let k = choose|k: int| 0 <= k < prev.len() && prev[k] == well_at(g, x)->0;
                        assert(cur[k] == prev[k]);
                    } else {
                        assert(cur[prev.len() as int] == w);
                    }
                }
            },
            None => {
                assert(cur == prev);
            },
        }
    }
}

/// The field's wells are listed left to right, one per well column: each
/// entry is the well `well_at` finds in its column, at least two deep, and
/// every column with a well appears.
pub proof fn law_field_wells_listed(g: Seq<Seq<bool>>)
    ensures
        forall|i: int|
            0 <= i < wells_in(g, 0, TOTAL_GRID_WIDTH as int).len() ==> {
                let w = #[trigger] wells_in(g, 0, TOTAL_GRID_WIDTH as int)[i];
                &&& w.0 < TOTAL_GRID_WIDTH
                &&& well_at(g, w.0 as int) == Some(w)
                &&& w.2 >= 2
            },
        forall|i: int, j: int|
            0 <= i < j < wells_in(g, 0, TOTAL_GRID_WIDTH as int).len() ==> (#[trigger] wells_in(
                g,
                0,
                TOTAL_GRID_WIDTH as int,
            )[i]).0 < (#[trigger] wells_in(g, 0, TOTAL_GRID_WIDTH as int)[j]).0,
        forall|x: int|
            0 <= x < TOTAL_GRID_WIDTH && #[trigger] well_at(g, x) is Some ==> wells_in(g, 0, TOTAL_GRID_WIDTH as int).contains(
                well_at(g, x)->0,
            ),
{
    lemma_wells_listed(g, 0, TOTAL_GRID_WIDTH as int);
}

} // verus!
