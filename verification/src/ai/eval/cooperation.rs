//! Features that depend on the other lanes: touching their predicted
//! pieces, staying in one's own lane, honouring their signals and filling or
//! capping vertical wells.

use vstd::prelude::*;
use crate::ai::types::PredictedPlacement;
use crate::board::{is_border_column, lane_x_range, spec_is_border_column, spec_lane_x_range};
use crate::config::TOTAL_GRID_WIDTH;
use crate::game::{HoleStatus, LanePace, LaneSignalBoard, LaneSignal};
use crate::config::LANE_COUNT;
use crate::tromino::TrominoKind;

verus! {

/// Cells `(ax, ay)` and `(bx, by)` share an edge.
pub open spec fn touching(ax: int, ay: int, bx: int, by: int) -> bool {
    vstd::math::abs(ax - bx) + vstd::math::abs(ay - by) == 1
}

/// Number of pairs of a cell among the first `n` of piece `offs` at `(x, y)`
/// and a cell of piece `other` at `(ox, oy)` that share an edge.
pub open spec fn touching_pairs(offs: Seq<(i32, i32)>, x: int, y: int, other: Seq<(i32, i32)>, ox: int, oy: int, n: int) -> nat
    decreases n,
{
    if n <= 0 {
        0
    } else {
        touching_pairs(offs, x, y, other, ox, oy, n - 1) + touching_cells(
            x + offs[n - 1].0,
            y + offs[n - 1].1,
            other,
            ox,
            oy,
            other.len() as int,
        )
    }
}

/// Number of the first `n` cells of piece `other` at `(ox, oy)` sharing an edge with cell `(cx, cy)`.
pub open spec fn touching_cells(cx: int, cy: int, other: Seq<(i32, i32)>, ox: int, oy: int, n: int) -> nat
    decreases n,
{
    if n <= 0 {
        0
    } else {
        touching_cells(cx, cy, other, ox, oy, n - 1) + if touching(cx, cy, ox + other[n - 1].0, oy + other[n - 1].1) {
            1nat
        } else {
            0nat
        }
    }
}

/// Number of edge-sharing cell pairs between the piece `offs` at `(x, y)` and
/// the first `n` predicted pieces.
pub open spec fn adjacency_count(offs: Seq<(i32, i32)>, x: int, y: int, others: Seq<PredictedPlacement>, n: int) -> nat
    decreases n,
{
    if n <= 0 {
        0
    } else {
        let o = others[n - 1];
        adjacency_count(offs, x, y, others, n - 1) + touching_pairs(
            offs,
            x,
            y,
            o.kind.spec_cell_offsets(o.rotation as nat),
            o.target_x as int,
            o.landing_y as int,
            offs.len() as int,
        )
    }
}

/// Number of cells of `other` at `(ox, oy)` that share an edge with `(cx, cy)`.
fn count_touching(cx: i64, cy: i64, other: &Vec<(i32, i32)>, ox: i32, oy: i32) -> (r: u64)
    requires
        other@.len() == 3,
        i32::MIN <= cx <= i32::MAX,
        i32::MIN <= cy <= i32::MAX,
    ensures
        r == touching_cells(cx as int, cy as int, other@, ox as int, oy as int, 3),
        r <= 3,
{
    let mut r: u64 = 0;
    let mut j: usize = 0;
    while j < 3
        invariant
            0 <= j <= 3,
            other@.len() == 3,
            i32::MIN <= cx <= i32::MAX,
            i32::MIN <= cy <= i32::MAX,
            r == touching_cells(cx as int, cy as int, other@, ox as int, oy as int, j as int),
            r <= j,
        decreases 3 - j,
    {
        let (dx, dy) = other[j];
        let tx: i64 = ox as i64 + dx as i64;
        let ty: i64 = oy as i64 + dy as i64;
        let ddx: i64 = if cx > tx { cx - tx } else { tx - cx };
        let ddy: i64 = if cy > ty { cy - ty } else { ty - cy };
        if cx - tx <= 1 && tx - cx <= 1 && cy - ty <= 1 && ty - cy <= 1 && ddx + ddy == 1 {
            r += 1;
        }
        proof {
            if touching(cx as int, cy as int, tx as int, ty as int) {
                assert(cx - tx <= 1 && tx - cx <= 1 && cy - ty <= 1 && ty - cy <= 1);
            }
        }
        j += 1;
    }
    r
}

/// Bonus for touching the other players' predicted pieces: 6 for every pair
/// of cells, one from each piece, that share an edge.
pub fn calculate_adjacency_bonus(
    offsets: &[(i32, i32)],
    x: i32,
    y: i32,
    predicted_others: &[PredictedPlacement],
) -> (r: i128)
    requires
        offsets@.len() <= 0x1_0000,
        forall|i: int|
            0 <= i < offsets@.len() ==> i32::MIN <= x + #[trigger] offsets@[i].0 <= i32::MAX && i32::MIN <= y
                + offsets@[i].1 <= i32::MAX,
    ensures
        r == 6 * adjacency_count(offsets@, x as int, y as int, predicted_others@, predicted_others@.len() as int),
{
    let mut total: u128 = 0;
    let mut k: usize = 0;
    while k < predicted_others.len()
        invariant
            0 <= k <= predicted_others@.len(),
            offsets@.len() <= 0x1_0000,
            forall|j: int|
                0 <= j < offsets@.len() ==> i32::MIN <= x + #[trigger] offsets@[j].0 <= i32::MAX && i32::MIN <= y
                    + offsets@[j].1 <= i32::MAX,
            total == adjacency_count(offsets@, x as int, y as int, predicted_others@, k as int),
            total <= k * offsets@.len() * 3,
        decreases predicted_others.len() - k,
    {
        let other = predicted_others[k];
        let other_offsets = other.kind.cell_offsets(other.rotation);
        let mut pairs: u128 = 0;
        let mut i: usize = 0;
        while i < offsets.len()
            invariant
                0 <= i <= offsets@.len(),
                offsets@.len() <= 0x1_0000,
                other_offsets@ == other.kind.spec_cell_offsets(other.rotation as nat),
                other_offsets@.len() == 3,
                forall|j: int|
                    0 <= j < offsets@.len() ==> i32::MIN <= x + #[trigger] offsets@[j].0 <= i32::MAX && i32::MIN <= y
                        + offsets@[j].1 <= i32::MAX,
                pairs == touching_pairs(
                    offsets@,
                    x as int,
                    y as int,
                    other_offsets@,
                    other.target_x as int,
                    other.landing_y as int,
                    i as int,
                ),
                pairs <= i * 3,
            decreases offsets.len() - i,
        {
            let (dx, dy) = offsets[i];
            let c = count_touching(x as i64 + dx as i64, y as i64 + dy as i64, &other_offsets, other.target_x, other.landing_y);
            pairs = pairs + c as u128;
            i += 1;
        }
        proof {
            assert(predicted_others@[k as int] == other);
            assert((k + 1) * offsets@.len() * 3 == k * offsets@.len() * 3 + offsets@.len() * 3) by (nonlinear_arith);
            assert(k * offsets@.len() * 3 <= 0x1_0000_0000_0000_0000 * 0x1_0000 * 3) by (nonlinear_arith)
                requires
                    k <= 0x1_0000_0000_0000_0000,
                    offsets@.len() <= 0x1_0000,
            ;
        }
        total = total + pairs;
        k += 1;
    }
    proof {
        assert(total <= 0x1_0000_0000_0000_0000 * 0x1_0000 * 3) by (nonlinear_arith)
            requires
                total <= k * offsets@.len() * 3,
                k <= 0x1_0000_0000_0000_0000,
                offsets@.len() <= 0x1_0000,
        ;
    }
    total as i128 * 6
}

/// Penalty for straying from one's own lane: 6 per column between `x` and the
/// lane's middle column.
pub open spec fn lane_distance_penalty(player_id: int, x: int) -> int {
    -6 * vstd::math::abs(x - (spec_lane_x_range(player_id).0 + 1))
}

/// Penalty for straying from the lane's middle column.
pub fn calculate_lane_distance_penalty(player_id: usize, x: i32) -> (r: i64)
    requires
        spec_lane_x_range(player_id as int).1 <= i32::MAX,
    ensures
        r == lane_distance_penalty(player_id as int, x as int),
{
    let (lane_min_x, _) = lane_x_range(player_id);
    assert(lane_min_x <= i32::MAX);
    let center: i64 = lane_min_x as i64 + 1;
    let d: i64 = if x as i64 > center { x as i64 - center } else { center - x as i64 };
    assert(0 <= d <= 0x2_0000_0000);
    let r: i64 = d * 6;
    -r
}

/// Number of the first `n` cells of the piece at column `x` whose column satisfies `pred`.
pub open spec fn cells_where(offs: Seq<(i32, i32)>, x: int, pred: spec_fn(int) -> bool, n: int) -> nat
    decreases n,
{
    if n <= 0 {
        0
    } else {
        cells_where(offs, x, pred, n - 1) + if pred(x + offs[n - 1].0) { 1nat } else { 0nat }
    }
}

/// Lanes `a` and `b` are side by side.
pub open spec fn lanes_adjacent(a: int, b: int) -> bool {
    vstd::math::abs(a - b) == 1
}

/// `v` cast to `i32`: its low 32 bits read as a signed number.
pub open spec fn wrap_i32(v: int) -> int {
    (v as i32) as int
}

/// Lane numbers `lane` and `p`, cast to `i32`, differ by an amount whose
/// absolute value is an `i32`, so the lane comparison does not overflow.
pub open spec fn lane_gap_ok(lane: int, p: int) -> bool {
    i32::MIN < wrap_i32(lane) - wrap_i32(p) <= i32::MAX
}

/// Bonus and penalty that signal `s` earns the piece `offs` of player `p` at
/// column `x`. A lane's own signal counts for nothing. A covered hole costs 120
/// for each cell dropped into its column; an uncovered hole of a neighbouring
/// lane earns 140 for each such cell. A neighbour's intended column costs 25
/// for each cell within one column of it, and while a neighbour soft-drops,
/// every cell in a separator column costs 30.
pub open spec fn signal_terms(p: int, offs: Seq<(i32, i32)>, x: int, s: LaneSignal) -> (int, int) {
    let n = offs.len() as int;
    if s.lane_id == p {
        (0, 0)
    } else {
        let nb = lanes_adjacent(wrap_i32(s.lane_id as int), wrap_i32(p));
        let on_hole = match s.hole_x {
            Some(hx) => cells_where(offs, x, |c: int| c == wrap_i32(hx as int), n) as int,
            None => 0,
        };
        let fill = if s.hole_x is Some && s.hole_status == HoleStatus::ReadyForFill && nb { 140 * on_hole } else { 0 };
        let covered = if s.hole_x is Some && s.hole_status == HoleStatus::WaitingForClearance { -120 * on_hole } else { 0 };
        let intent = match s.intent_target_x {
            Some(ix) => if nb { -25 * cells_where(offs, x, |c: int| vstd::math::abs(c - ix) <= 1, n) } else { 0 },
            None => 0,
        };
        let rushing = if nb && s.pace == LanePace::SoftDrop {
            -30 * cells_where(offs, x, |c: int| spec_is_border_column(c), n)
        } else {
            0
        };
        (fill, covered + intent + rushing)
    }
}

/// Sum of `signal_terms` over the first `n` signals.
pub open spec fn signal_cooperation(p: int, offs: Seq<(i32, i32)>, x: int, sigs: Seq<LaneSignal>, n: int) -> (int, int)
    decreases n,
{
    if n <= 0 {
        (0, 0)
    } else {
        let prev = signal_cooperation(p, offs, x, sigs, n - 1);
        let t = signal_terms(p, offs, x, sigs[n - 1]);
        (prev.0 + t.0, prev.1 + t.1)
    }
}

/// Counts the cells of the piece at column `x` whose column is `target`,
/// within one column of `target`, and in a separator column.
fn count_columns(offsets: &[(i32, i32)], x: i32, target: i64) -> (r: (u64, u64, u64))
    requires
        i32::MIN <= target <= i32::MAX,
        offsets@.len() <= 0x1_0000,
        forall|i: int| 0 <= i < offsets@.len() ==> i32::MIN <= x + #[trigger] offsets@[i].0 <= i32::MAX,
    ensures
        r.0 == cells_where(offsets@, x as int, |c: int| c == target, offsets@.len() as int),
        r.1 == cells_where(offsets@, x as int, |c: int| vstd::math::abs(c - target) <= 1, offsets@.len() as int),
        r.2 == cells_where(offsets@, x as int, |c: int| spec_is_border_column(c), offsets@.len() as int),
        r.0 <= 0x1_0000,
        r.1 <= 0x1_0000,
        r.2 <= 0x1_0000,
{
    let ghost on = |c: int| c == target;
    let ghost near = |c: int| vstd::math::abs(c - target) <= 1;
    let ghost border = |c: int| spec_is_border_column(c);
    let mut a: u64 = 0;
    let mut b: u64 = 0;
    let mut c: u64 = 0;
    let mut i: usize = 0;
    while i < offsets.len()
        invariant
            0 <= i <= offsets@.len(),
            i32::MIN <= target <= i32::MAX,
            offsets@.len() <= 0x1_0000,
            forall|k: int| 0 <= k < offsets@.len() ==> i32::MIN <= x + #[trigger] offsets@[k].0 <= i32::MAX,
            on == (|c: int| c == target),
            near == (|c: int| vstd::math::abs(c - target) <= 1),
            border == (|c: int| spec_is_border_column(c)),
            a == cells_where(offsets@, x as int, on, i as int),
            b == cells_where(offsets@, x as int, near, i as int),
            c == cells_where(offsets@, x as int, border, i as int),
            a <= i,
            b <= i,
            c <= i,
        decreases offsets.len() - i,
    {
        let cx: i32 = x + offsets[i].0;
        let cx64: i64 = cx as i64;
        assert(on(x + offsets@[i as int].0) == (cx64 == target));
        assert(near(x + offsets@[i as int].0) == (cx64 - target <= 1 && target - cx64 <= 1));
        assert(border(x + offsets@[i as int].0) == (cx >= 0 && cx < TOTAL_GRID_WIDTH && spec_is_border_column(cx as int)));
        if cx64 == target {
            a += 1;
        }
        if cx64 - target <= 1 && target - cx64 <= 1 {
            b += 1;
        }
        if cx >= 0 && (cx as usize) < TOTAL_GRID_WIDTH && is_border_column(cx as usize) {
            c += 1;
        }
        i += 1;
    }
    (a, b, c)
}

/// Bonus for filling the uncovered holes of neighbouring lanes, and penalty
/// for dropping onto covered holes, crowding a neighbour's intended column or
/// blocking separator columns while a neighbour soft-drops.
pub fn calculate_signal_cooperation(
    player_id: usize,
    offsets: &[(i32, i32)],
    x: i32,
    signals: &LaneSignalBoard,
) -> (r: (i64, i64))
    requires
        offsets@.len() <= 0x1_0000,
        forall|i: int| 0 <= i < offsets@.len() ==> i32::MIN <= x + #[trigger] offsets@[i].0 <= i32::MAX,
        forall|i: int|
            0 <= i < LANE_COUNT && #[trigger] signals.signals[i].lane_id != player_id ==> lane_gap_ok(
                signals.signals[i].lane_id as int,
                player_id as int,
            ),
    ensures
        r.0 == signal_cooperation(player_id as int, offsets@, x as int, signals.signals@, LANE_COUNT as int).0,
        r.1 == signal_cooperation(player_id as int, offsets@, x as int, signals.signals@, LANE_COUNT as int).1,
{
    let mut bonus: i64 = 0;
    let mut penalty: i64 = 0;
    let mut k: usize = 0;
    while k < LANE_COUNT
        invariant
            0 <= k <= LANE_COUNT,
            offsets@.len() <= 0x1_0000,
            forall|i: int| 0 <= i < offsets@.len() ==> i32::MIN <= x + #[trigger] offsets@[i].0 <= i32::MAX,
            bonus == signal_cooperation(player_id as int, offsets@, x as int, signals.signals@, k as int).0,
            penalty == signal_cooperation(player_id as int, offsets@, x as int, signals.signals@, k as int).1,
            0 <= bonus <= k * 140 * 0x1_0000,
            -(k * 175 * 0x1_0000) <= penalty <= 0,
        decreases LANE_COUNT - k,
    {
        let s = signals.signals[k];
        assert(s == signals.signals@[k as int]);
        if s.lane_id != player_id {
            let gap: i64 = (s.lane_id as i32) as i64 - (player_id as i32) as i64;
            let nb = gap == 1 || gap == -1;
            match s.hole_x {
                Some(hx) => {
                    let (on, _, _) = count_columns(offsets, x, (hx as i32) as i64);
                    match s.hole_status {
                        HoleStatus::WaitingForClearance => {
                            penalty = penalty - 120 * on as i64;
                        },
                        HoleStatus::ReadyForFill => {
                            if nb {
                                bonus = bonus + 140 * on as i64;
                            }
                        },
                        HoleStatus::NoHole => {},
                    }
                },
                None => {},
            }
            match s.intent_target_x {
                Some(ix) => {
                    if nb {
                        let (_, near, _) = count_columns(offsets, x, ix as i64);
                        penalty = penalty - 25 * near as i64;
                    }
                },
                None => {},
            }
            if nb && s.pace == LanePace::SoftDrop {
                let (_, _, border) = count_columns(offsets, x, 0);
                penalty = penalty - 30 * border as i64;
            }
        }
        k += 1;
    }
    (bonus, penalty)
}

/// Bonus for dropping an upright straight piece down a well: by its depth
/// 220 (two), 320 (three) or 260 (deeper), half as much again for a
/// neighbouring lane's well.
pub open spec fn well_fill_bonus(depth: int, neighbour: bool) -> int {
    if depth == 2 {
        if neighbour { 330 } else { 220 }
    } else if depth == 3 {
        if neighbour { 480 } else { 320 }
    } else {
        if neighbour { 390 } else { 260 }
    }
}

/// Bonus and penalty that well `w = (lane, x, bottom row, depth)` earns the
/// piece of player `p` placed at `(x, y)`. Only wells of one's own or a
/// neighbouring lane count. An upright straight piece standing in the well's
/// column no higher than its bottom earns `well_fill_bonus`; a corner piece
/// with a cell in the well's column above its bottom caps it and costs 280.
pub open spec fn well_terms(
    p: int,
    kind: TrominoKind,
    rot: nat,
    x: int,
    y: int,
    offs: Seq<(i32, i32)>,
    w: (usize, usize, usize, usize),
) -> (int, int) {
    let (lane, wx, wy, depth) = w;
    let gap = wrap_i32(lane as int) - wrap_i32(p);
    if vstd::math::abs(gap) > 1 {
        (0, 0)
    } else {
        match kind {
            TrominoKind::Straight => if rot % 2 == 1 && x == wrap_i32(wx as int) && y <= wrap_i32(wy as int) {
                (well_fill_bonus(depth as int, gap != 0), 0)
            } else {
                (0, 0)
            },
            TrominoKind::Corner => if exists|i: int|
                0 <= i < offs.len() && x + #[trigger] offs[i].0 == wrap_i32(wx as int) && y + offs[i].1 > wrap_i32(wy as int) {
                (0, -280)
            } else {
                (0, 0)
            },
        }
    }
}

/// Sum of `well_terms` over the first `n` wells.
pub open spec fn well_cooperation(
    p: int,
    kind: TrominoKind,
    rot: nat,
    x: int,
    y: int,
    offs: Seq<(i32, i32)>,
    wells: Seq<(usize, usize, usize, usize)>,
    n: int,
) -> (int, int)
    decreases n,
{
    if n <= 0 {
        (0, 0)
    } else {
        let prev = well_cooperation(p, kind, rot, x, y, offs, wells, n - 1);
        let t = well_terms(p, kind, rot, x, y, offs, wells[n - 1]);
        (prev.0 + t.0, prev.1 + t.1)
    }
}

/// Whether some cell of the piece lies in column `wx` above row `wy`.
fn caps_column(offsets: &[(i32, i32)], x: i32, y: i32, wx: i32, wy: i32) -> (r: bool)
    ensures
        r == exists|i: int| 0 <= i < offsets@.len() && x + #[trigger] offsets@[i].0 == wx && y + offsets@[i].1 > wy,
{
    let mut i: usize = 0;
    while i < offsets.len()
        invariant
            0 <= i <= offsets@.len(),
            forall|k: int| 0 <= k < i ==> !(x + #[trigger] offsets@[k].0 == wx && y + offsets@[k].1 > wy),
        decreases offsets.len() - i,
    {
        let (dx, dy) = offsets[i];
        if x as i64 + dx as i64 == wx as i64 && y as i64 + dy as i64 > wy as i64 {
            return true;
        }
        i += 1;
    }
    false
}

/// Bonus for filling one's own or a neighbour's vertical well with an
/// upright straight piece, and penalty for capping such a well with a corner piece.
pub fn calculate_well_cooperation(
    player_id: usize,
    kind: &TrominoKind,
    rot: usize,
    x: i32,
    y: i32,
    offsets: &[(i32, i32)],
    active_vertical_wells: &[(usize, usize, usize, usize)],
) -> (r: (i128, i128))
    requires
        forall|i: int|
            0 <= i < active_vertical_wells@.len() ==> lane_gap_ok(
                (#[trigger] active_vertical_wells@[i]).0 as int,
                player_id as int,
            ),
    ensures
        r.0 == well_cooperation(
            player_id as int,
            *kind,
            rot as nat,
            x as int,
            y as int,
            offsets@,
            active_vertical_wells@,
            active_vertical_wells@.len() as int,
        ).0,
        r.1 == well_cooperation(
            player_id as int,
            *kind,
            rot as nat,
            x as int,
            y as int,
            offsets@,
            active_vertical_wells@,
            active_vertical_wells@.len() as int,
        ).1,
{
    let mut bonus: i128 = 0;
    let mut penalty: i128 = 0;
    let mut k: usize = 0;
    while k < active_vertical_wells.len()
        invariant
            0 <= k <= active_vertical_wells@.len(),
            bonus == well_cooperation(player_id as int, *kind, rot as nat, x as int, y as int, offsets@, active_vertical_wells@, k as int).0,
            penalty == well_cooperation(player_id as int, *kind, rot as nat, x as int, y as int, offsets@, active_vertical_wells@, k as int).1,
            0 <= bonus <= k * 480,
            -(k * 280) <= penalty <= 0,
        decreases active_vertical_wells.len() - k,
    {
        let (lane, wx, wy, depth) = active_vertical_wells[k];
        assert((lane, wx, wy, depth) == active_vertical_wells@[k as int]);
        let gap: i64 = (lane as i32) as i64 - (player_id as i32) as i64;
        let own_or_neighbour = -1 <= gap && gap <= 1;
        if own_or_neighbour {
            let nb = gap != 0;
            match kind {
                TrominoKind::Straight => {
                    if rot % 2 == 1 && x == wx as i32 && y <= wy as i32 {
                        let b: i128 = if depth == 2 {
                            if nb { 330 } else { 220 }
                        } else if depth == 3 {
                            if nb { 480 } else { 320 }
                        } else {
                            if nb { 390 } else { 260 }
                        };
                        bonus = bonus + b;
                    }
                },
                TrominoKind::Corner => {
                    if caps_column(offsets, x, y, wx as i32, wy as i32) {
                        penalty = penalty - 280;
                    }
                },
            }
        }
        k += 1;
    }
    (bonus, penalty)
}

} // verus!
