//! Integer features of a placement; the weighted score is formed from them
//! by the caller.

pub mod metrics;
pub mod cooperation;
pub mod board_eval;
pub mod compact_eval;
pub mod global_eval;

use vstd::prelude::*;
use crate::ai::types::PredictedPlacement;
use crate::board::model::{column_height, total_holes, wells_in};
use crate::board::rows::{grid_cleared, grid_full_rows, grid_locked, wide_cleared, wide_locked};
use crate::board::{spec_lane_x_range, CompactBoard, GlobalBoard};
use crate::board::model::{clear_score, piece_overflows};
use crate::config::{LANE_COUNT, LANE_HEIGHT, TOTAL_GRID_WIDTH};
use crate::game::{LaneSignal, LaneSignalBoard};
use crate::tromino::TrominoKind;
use board_eval::{roof_and_hole, rows_over_holes, well_creation};
use compact_eval::{
    evaluate_hole_clearance_compact, evaluate_roof_and_hole_compact, evaluate_row_fill_compact, evaluate_well_creation_compact,
    row_fill_rows,
};
use global_eval::{evaluate_hole_clearance_global, evaluate_roof_and_hole_global, evaluate_well_creation_global};
use cooperation::{
    adjacency_count, calculate_adjacency_bonus, calculate_lane_distance_penalty, calculate_signal_cooperation,
    calculate_well_cooperation, lane_distance_penalty, lane_gap_ok, signal_cooperation, well_cooperation,
};
use metrics::{
    border_cells, border_score, bottom_priority, calculate_border_metrics, calculate_bottom_priority_bonus,
    calculate_height_metrics, heights_bumpiness, heights_max, heights_sum,
};

verus! {

/// The integer features of one placement. The score of the placement is
/// their weighted sum; the row-fill bonus is formed from `row_fill`.
#[derive(Debug)]
pub struct PlacementFeatures {
    /// Rows cleared with the other players' predicted pieces in place.
    pub lines: usize,
    /// Rows cleared only thanks to the other players' pieces.
    pub cooperative_lines: usize,
    pub height_sum: u64,
    pub max_height: u64,
    pub bumpiness: u64,
    pub holes: usize,
    pub border_bridge: i64,
    pub border_barrier: i64,
    pub adjacency: i128,
    pub anti_roof: i64,
    pub hole_fill: i64,
    pub well_cooperation: i128,
    pub well_capping: i128,
    pub well_creation: i64,
    pub signal_cooperation: i64,
    pub non_interference: i64,
    pub lane_distance: i64,
    pub bottom_priority: i64,
    pub hole_clearance: i64,
    /// `(set bits, LANE_HEIGHT - row)` of the rows behind the row-fill bonus.
    pub row_fill: Vec<(u32, usize)>,
}

/// The vertical wells a placement of player `p` considers: its own lane's
/// wells `own`, then the wells the first `n` other lanes signal, each as
/// `(lane, x, bottom row, depth)`.
pub open spec fn signalled_wells(p: int, sigs: Seq<LaneSignal>, n: int) -> Seq<(usize, usize, usize, usize)>
    decreases n,
{
    if n <= 0 {
        seq![]
    } else {
        let prev = signalled_wells(p, sigs, n - 1);
        let s = sigs[n - 1];
        match s.vertical_well {
            Some(w) => if s.lane_id != p {
                prev.push((s.lane_id, w.0, w.1, w.2))
            } else {
                prev
            },
            None => prev,
        }
    }
}

/// Own wells of player `p` followed by the wells the other lanes signal.
pub open spec fn active_wells(p: int, own: Seq<(usize, usize, usize)>, sigs: Seq<LaneSignal>) -> Seq<(usize, usize, usize, usize)> {
    own.map_values(|w: (usize, usize, usize)| (p as usize, w.0, w.1, w.2)) + signalled_wells(p, sigs, sigs.len() as int)
}

/// Column heights of a grid.
pub open spec fn grid_heights(g: Seq<Seq<bool>>) -> Seq<usize> {
    Seq::new(TOTAL_GRID_WIDTH as nat, |i: int| column_height(g, i) as usize)
}

/// `f` holds the features of player `p` placing `kind` in rotation `rot` at
/// `(x, y)`, judged on the field `current` and on `future`, the field with the
/// other players' predicted pieces `others` locked in, given the signals
/// `sigs`. Every feature but the row-fill rows is stated here.
pub open spec fn features_of(
    f: PlacementFeatures,
    current: Seq<Seq<bool>>,
    future: Seq<Seq<bool>>,
    p: int,
    kind: TrominoKind,
    rot: nat,
    x: int,
    y: int,
    others: Seq<PredictedPlacement>,
    sigs: Seq<LaneSignal>,
) -> bool {
    let offs = kind.spec_cell_offsets(rot);
    let locked = grid_locked(future, offs, x, y);
    let sim = grid_cleared(locked);
    let lines = grid_full_rows(locked).len();
    let alone = grid_full_rows(grid_locked(current, offs, x, y)).len();
    let h = grid_heights(sim);
    let border_h: nat = if 0 <= x < TOTAL_GRID_WIDTH { column_height(current, x) } else { 0 };
    let border = border_score(kind, rot, border_cells(offs, x, 3), border_h);
    let roof = roof_and_hole(future, sim, offs, x, y, 3);
    let wells = active_wells(
        p,
        wells_in(future, spec_lane_x_range(p).0, spec_lane_x_range(p).1 + 1),
        sigs,
    );
    let coop = well_cooperation(p, kind, rot, x, y, offs, wells, wells.len() as int);
    let signal = signal_cooperation(p, offs, x, sigs, sigs.len() as int);
    &&& f.lines == lines
    &&& f.cooperative_lines == if lines > alone { lines - alone } else { 0 }
    &&& f.height_sum == heights_sum(h, TOTAL_GRID_WIDTH as int)
    &&& f.max_height == heights_max(h, TOTAL_GRID_WIDTH as int)
    &&& f.bumpiness == heights_bumpiness(h, TOTAL_GRID_WIDTH as int)
    &&& f.holes == total_holes(sim)
    &&& f.border_bridge == border.0
    &&& f.border_barrier == border.1
    &&& f.adjacency == 6 * adjacency_count(offs, x, y, others, others.len() as int)
    &&& f.anti_roof == roof.0
    &&& f.hole_fill == roof.1
    &&& f.well_cooperation == coop.0
    &&& f.well_capping == coop.1
    &&& f.well_creation == well_creation(
        wells_in(sim, 0, TOTAL_GRID_WIDTH as int),
        wells_in(future, 0, TOTAL_GRID_WIDTH as int),
        wells_in(sim, 0, TOTAL_GRID_WIDTH as int).len() as int,
    )
    &&& f.signal_cooperation == signal.0
    &&& f.non_interference == signal.1
    &&& f.lane_distance == lane_distance_penalty(p, x)
    &&& f.bottom_priority == bottom_priority(y)
    &&& f.hole_clearance == if lines > 0 { 120 * rows_over_holes(sim, grid_full_rows(locked), lines as int) } else { 0 }
}

/// What the evaluation needs of its inputs: the player's lane exists, the
/// piece's cells stay within `i32`, no cell on the field's columns sits one
/// row below the floor, and the other lanes' numbers compare with it.
pub open spec fn evaluation_inputs_ok(
    p: int,
    kind: TrominoKind,
    rot: nat,
    x: int,
    y: int,
    others: Seq<PredictedPlacement>,
    sigs: Seq<LaneSignal>,
) -> bool {
    let offs = kind.spec_cell_offsets(rot);
    &&& 0 <= p < LANE_COUNT
    &&& x <= i32::MAX - 2
    &&& i32::MIN + LANE_HEIGHT <= y <= i32::MAX - 2
    &&& forall|i: int| 0 <= i < 3 && 0 <= x + #[trigger] offs[i].0 < TOTAL_GRID_WIDTH ==> y + offs[i].1 != -1
    &&& signal_lanes_ok(p, sigs)
}

/// Every other lane's signal carries a lane number that can be compared with
/// lane `p` after both are cast to `i32`.
pub open spec fn signal_lanes_ok(p: int, sigs: Seq<LaneSignal>) -> bool {
    forall|i: int| 0 <= i < sigs.len() && (#[trigger] sigs[i]).lane_id != p ==> lane_gap_ok(sigs[i].lane_id as int, p)
}

/// Locking the piece `offs` at `(x, y)` into `b` and clearing the full rows
/// keeps the score and the line count within `u32`.
pub open spec fn lock_and_clear_fit(b: GlobalBoard, offs: Seq<(i32, i32)>, x: int, y: int) -> bool {
    let n = grid_full_rows(grid_locked(b.grid(), offs, x, y)).len();
    let score = if piece_overflows(offs, y) { b.score as int } else { b.score + 10 };
    &&& score + clear_score(n as int) <= u32::MAX
    &&& b.lines_cleared + n <= u32::MAX
}

/// The wells of `own` tagged with lane `p`, followed by the wells the other lanes signal.
fn collect_active_wells(p: usize, own: &Vec<(usize, usize, usize)>, signals: &LaneSignalBoard) -> (r: Vec<(usize, usize, usize, usize)>)
    ensures
        r@ == active_wells(p as int, own@, signals.signals@),
{
    let mut out: Vec<(usize, usize, usize, usize)> = Vec::new();
    let mut i: usize = 0;
    while i < own.len()
        invariant
            0 <= i <= own@.len(),
            out@ == own@.subrange(0, i as int).map_values(|w: (usize, usize, usize)| (p, w.0, w.1, w.2)),
        decreases own.len() - i,
    {
        let (wx, wy, wd) = own[i];
        out.push((p, wx, wy, wd));
        proof {
            assert(own@.subrange(0, i + 1).map_values(|w: (usize, usize, usize)| (p, w.0, w.1, w.2)) =~= own@.subrange(
                0,
                i as int,
            ).map_values(|w: (usize, usize, usize)| (p, w.0, w.1, w.2)).push((p, wx, wy, wd)));
        }
        i += 1;
    }
    assert(own@.subrange(0, own@.len() as int) =~= own@);
    let ghost base = out@;
    let mut k: usize = 0;
    while k < LANE_COUNT
        invariant
            0 <= k <= LANE_COUNT,
            base == own@.map_values(|w: (usize, usize, usize)| (p, w.0, w.1, w.2)),
            out@ == base + signalled_wells(p as int, signals.signals@, k as int),
        decreases LANE_COUNT - k,
    {
        let s = signals.signals[k];
        assert(s == signals.signals@[k as int]);
        match s.vertical_well {
            Some((wx, wy, wd)) => {
                if s.lane_id != p {
                    out.push((s.lane_id, wx, wy, wd));
                }
            },
            None => {},
        }
        k += 1;
    }
    out
}

/// Scores placements from their features.
pub struct Evaluator;

impl Evaluator {
    /// The features of player `player_id` placing `kind` in rotation `rot` at
    /// `(x, y)`, on the bitboards `current_board` and `future_board` (the field
    /// with the other players' predicted pieces locked in): the piece is
    /// locked into each and full rows cleared; the cleared rows, the shape of
    /// the resulting field, the gaps covered and wells dug against
    /// `future_board`, and the cooperation with the other lanes' signals and
    /// predicted pieces are measured.
    #[verifier::rlimit(40)]
    pub fn evaluate_placement_compact(
        current_board: &CompactBoard,
        future_board: &CompactBoard,
        player_id: usize,
        kind: &TrominoKind,
        rot: usize,
        x: i32,
        y: i32,
        predicted_others: &[PredictedPlacement],
        signals: &LaneSignalBoard,
    ) -> (r: PlacementFeatures)
        requires
            evaluation_inputs_ok(player_id as int, *kind, rot as nat, x as int, y as int, predicted_others@, signals.signals@),
        ensures
            features_of(
                r,
                current_board.grid(),
                future_board.grid(),
                player_id as int,
                *kind,
                rot as nat,
                x as int,
                y as int,
                predicted_others@,
                signals.signals@,
            ),
            r.row_fill@ == row_fill_rows(
                wide_cleared(wide_locked(future_board.words(), kind.spec_cell_offsets(rot as nat), x as int, y as int, 32), 32),
                kind.spec_cell_offsets(rot as nat),
                y as int,
                3,
            ),
    {
        let ghost offs = kind.spec_cell_offsets(rot as nat);
        let mut sim_future = *future_board;
        sim_future.lock_tromino(kind, rot, x, y);
        let (future_lines, future_cleared_indices) = sim_future.clear_full_lines_with_indices();
        let mut sim_alone = *current_board;
        sim_alone.lock_tromino(kind, rot, x, y);
        let alone_lines = sim_alone.clear_full_lines();
        let cooperative_lines = if future_lines > alone_lines { future_lines - alone_lines } else { 0 };

        let heights = sim_future.column_heights();
        proof {
            assert forall|i: int| 0 <= i < TOTAL_GRID_WIDTH implies #[trigger] heights[i] <= u32::MAX by {
                crate::board::model::lemma_height_below(sim_future.grid(), i, LANE_HEIGHT as int);
            }
            assert(heights@ =~= grid_heights(sim_future.grid()));
        }
        let (height_sum, max_height, bumpiness) = calculate_height_metrics(&heights);
        let holes = sim_future.count_holes();

        let offsets = kind.cell_offsets(rot);
        proof {
            crate::ai::pathfinding::explore::lemma_offsets_shape(*kind, rot as nat);
        }
        let existing_border_h = if x >= 0 && (x as usize) < TOTAL_GRID_WIDTH {
            current_board.column_heights()[x as usize]
        } else {
            0
        };
        let (border_bridge, border_barrier) = calculate_border_metrics(kind, rot, x, offsets.as_slice(), existing_border_h);
        let adjacency = calculate_adjacency_bonus(offsets.as_slice(), x, y, predicted_others);
        let (anti_roof, hole_fill) = evaluate_roof_and_hole_compact(future_board, &sim_future, offsets.as_slice(), x, y);

        let own_wells = future_board.find_lane_vertical_wells(player_id);
        let active = collect_active_wells(player_id, &own_wells, signals);
        proof {
            lemma_active_wells_bounds(player_id as int, future_board.grid(), signals.signals@);
        }
        let (well_cooperation, well_capping) = calculate_well_cooperation(
            player_id,
            kind,
            rot,
            x,
            y,
            offsets.as_slice(),
            active.as_slice(),
        );
        let well_creation = evaluate_well_creation_compact(future_board, &sim_future);
        let (signal_cooperation, non_interference) = calculate_signal_cooperation(player_id, offsets.as_slice(), x, signals);
        let lane_distance = calculate_lane_distance_penalty(player_id, x);
        let bottom_priority = calculate_bottom_priority_bonus(y);
        proof {
            crate::board::model::lemma_kept_full_len(
                grid_locked(future_board.grid(), offs, x as int, y as int),
                crate::board::rows::grid_full_pred(),
                LANE_HEIGHT as int,
            );
        }
        let hole_clearance = if future_lines > 0 {
            evaluate_hole_clearance_compact(&sim_future, future_cleared_indices.as_slice())
        } else {
            0
        };
        let row_fill = evaluate_row_fill_compact(&sim_future, offsets.as_slice(), y);
        PlacementFeatures {
            lines: future_lines,
            cooperative_lines,
            height_sum,
            max_height,
            bumpiness,
            holes,
            border_bridge,
            border_barrier,
            adjacency,
            anti_roof,
            hole_fill,
            well_cooperation,
            well_capping,
            well_creation,
            signal_cooperation,
            non_interference,
            lane_distance,
            bottom_priority,
            hole_clearance,
            row_fill,
        }
    }

    /// The features of player `player_id` placing `kind` in rotation `rot` at
    /// `(x, y)` on the full boards `current_board` and `future_board`, as
    /// `evaluate_placement_compact` measures them; the row-fill rows are not
    /// part of this evaluation and are left empty. Locking and clearing on
    /// the full board also count score and lines, which must not overflow.
    #[verifier::rlimit(40)]
    pub fn evaluate_placement(
        current_board: &GlobalBoard,
        future_board: &GlobalBoard,
        player_id: usize,
        kind: &TrominoKind,
        rot: usize,
        x: i32,
        y: i32,
        predicted_others: &[PredictedPlacement],
        signals: &LaneSignalBoard,
    ) -> (r: PlacementFeatures)
        requires
            evaluation_inputs_ok(player_id as int, *kind, rot as nat, x as int, y as int, predicted_others@, signals.signals@),
            lock_and_clear_fit(*current_board, kind.spec_cell_offsets(rot as nat), x as int, y as int),
            lock_and_clear_fit(*future_board, kind.spec_cell_offsets(rot as nat), x as int, y as int),
        ensures
            features_of(
                r,
                current_board.grid(),
                future_board.grid(),
                player_id as int,
                *kind,
                rot as nat,
                x as int,
                y as int,
                predicted_others@,
                signals.signals@,
            ),
            r.row_fill@.len() == 0,
    {
        let ghost offs = kind.spec_cell_offsets(rot as nat);
        let mut sim_future = *future_board;
        sim_future.lock_tromino(player_id, kind, rot, x, y);
        proof {
            crate::board::line_clear::lemma_full_cell_rows(sim_future);
        }
        let (future_lines, future_cleared_indices) = sim_future.clear_full_lines_with_indices();
        let mut sim_alone = *current_board;
        sim_alone.lock_tromino(player_id, kind, rot, x, y);
        proof {
            crate::board::line_clear::lemma_full_cell_rows(sim_alone);
        }
        let alone_lines = sim_alone.clear_full_lines();
        let cooperative_lines = if future_lines > alone_lines { future_lines - alone_lines } else { 0 };

        let heights = sim_future.column_heights();
        proof {
            assert forall|i: int| 0 <= i < TOTAL_GRID_WIDTH implies #[trigger] heights[i] <= u32::MAX by {
                crate::board::model::lemma_height_below(sim_future.grid(), i, LANE_HEIGHT as int);
            }
            assert(heights@ =~= grid_heights(sim_future.grid()));
        }
        let (height_sum, max_height, bumpiness) = calculate_height_metrics(&heights);
        let holes = sim_future.count_holes();

        let offsets = kind.cell_offsets(rot);
        proof {
            crate::ai::pathfinding::explore::lemma_offsets_shape(*kind, rot as nat);
        }
        let existing_border_h = if x >= 0 && (x as usize) < TOTAL_GRID_WIDTH {
            current_board.column_heights()[x as usize]
        } else {
            0
        };
        let (border_bridge, border_barrier) = calculate_border_metrics(kind, rot, x, offsets.as_slice(), existing_border_h);
        let adjacency = calculate_adjacency_bonus(offsets.as_slice(), x, y, predicted_others);
        let (anti_roof, hole_fill) = evaluate_roof_and_hole_global(future_board, &sim_future, offsets.as_slice(), x, y);

        let own_wells = future_board.find_lane_vertical_wells(player_id);
        let active = collect_active_wells(player_id, &own_wells, signals);
        proof {
            lemma_active_wells_bounds(player_id as int, future_board.grid(), signals.signals@);
        }
        let (well_cooperation, well_capping) = calculate_well_cooperation(
            player_id,
            kind,
            rot,
            x,
            y,
            offsets.as_slice(),
            active.as_slice(),
        );
        let well_creation = evaluate_well_creation_global(future_board, &sim_future);
        let (signal_cooperation, non_interference) = calculate_signal_cooperation(player_id, offsets.as_slice(), x, signals);
        let lane_distance = calculate_lane_distance_penalty(player_id, x);
        let bottom_priority = calculate_bottom_priority_bonus(y);
        proof {
            crate::board::model::lemma_kept_full_len(
                grid_locked(future_board.grid(), offs, x as int, y as int),
                crate::board::rows::grid_full_pred(),
                LANE_HEIGHT as int,
            );
        }
        let hole_clearance = if future_lines > 0 {
            evaluate_hole_clearance_global(&sim_future, future_cleared_indices.as_slice())
        } else {
            0
        };
        let row_fill: Vec<(u32, usize)> = Vec::new();
        PlacementFeatures {
            lines: future_lines,
            cooperative_lines,
            height_sum,
            max_height,
            bumpiness,
            holes,
            border_bridge,
            border_barrier,
            adjacency,
            anti_roof,
            hole_fill,
            well_cooperation,
            well_capping,
            well_creation,
            signal_cooperation,
            non_interference,
            lane_distance,
            bottom_priority,
            hole_clearance,
            row_fill,
        }
    }
}

/// The lane of every well a lane considers compares with its own.
proof fn lemma_active_wells_bounds(p: int, g: Seq<Seq<bool>>, sigs: Seq<LaneSignal>)
    requires
        0 <= p < LANE_COUNT,
        sigs.len() == LANE_COUNT,
        signal_lanes_ok(p, sigs),
    ensures
        ({
            let a = active_wells(p, wells_in(g, spec_lane_x_range(p).0, spec_lane_x_range(p).1 + 1), sigs);
            forall|i: int| 0 <= i < a.len() ==> lane_gap_ok((#[trigger] a[i]).0 as int, p)
        }),
{
    let own = wells_in(g, spec_lane_x_range(p).0, spec_lane_x_range(p).1 + 1);
    lemma_signalled_wells_bounds(p, sigs, sigs.len() as int);
    let a = active_wells(p, own, sigs);
    let m = own.map_values(|w: (usize, usize, usize)| (p as usize, w.0, w.1, w.2));
    assert forall|i: int| 0 <= i < a.len() implies lane_gap_ok((#[trigger] a[i]).0 as int, p) by {
        if i < m.len() {
            assert(a[i] == m[i]);
            assert(a[i].0 as int == p);
        } else {
            assert(a[i] == signalled_wells(p, sigs, sigs.len() as int)[i - m.len()]);
        }
    }
}

/// The signalled wells come from other lanes, whose numbers compare with `p`.
proof fn lemma_signalled_wells_bounds(p: int, sigs: Seq<LaneSignal>, n: int)
    requires
        0 <= n <= sigs.len(),
        signal_lanes_ok(p, sigs),
    ensures
        forall|i: int|
            0 <= i < signalled_wells(p, sigs, n).len() ==> lane_gap_ok(
                (#[trigger] signalled_wells(p, sigs, n)[i]).0 as int,
                p,
            ),
    decreases n,
{
    if n > 0 {
        lemma_signalled_wells_bounds(p, sigs, n - 1);
        let s = sigs[n - 1];
        let prev = signalled_wells(p, sigs, n - 1);
        let cur = signalled_wells(p, sigs, n);
        assert forall|i: int| 0 <= i < cur.len() implies lane_gap_ok((#[trigger] cur[i]).0 as int, p) by {
            if i < prev.len() {
                assert(cur[i] == prev[i]);
            } else {
                assert(s.lane_id != p);
            }
        }
    }
}

} // verus!
