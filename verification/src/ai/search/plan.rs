//! What a lane plans around: the cells the other players' predicted pieces
//! will take, and the field as it will be once they have landed.

use vstd::prelude::*;
use crate::ai::pathfinding::common::contains_cell;
use crate::ai::pathfinding::model::blocked_by;
use crate::ai::types::PredictedPlacement;
use crate::board::model::piece_overflows;
use crate::board::rows::grid_locked;
use crate::board::GlobalBoard;
use crate::tromino::TrominoKind;

verus! {

/// The cells of the first `n` predicted pieces, piece by piece in the order of
/// their cell offsets.
pub open spec fn reserved_of(others: Seq<PredictedPlacement>, n: int) -> Seq<(i32, i32)>
    decreases n,
{
    if n <= 0 {
        seq![]
    } else {
        let o = others[n - 1];
        let offs = o.kind.spec_cell_offsets(o.rotation as nat);
        reserved_of(others, n - 1) + Seq::new(
            offs.len(),
            |j: int| ((o.target_x + offs[j].0) as i32, (o.landing_y + offs[j].1) as i32),
        )
    }
}

/// The grid with the first `n` predicted pieces locked in, in order.
pub open spec fn future_grid(g: Seq<Seq<bool>>, others: Seq<PredictedPlacement>, n: int) -> Seq<Seq<bool>>
    decreases n,
{
    if n <= 0 {
        g
    } else {
        let o = others[n - 1];
        grid_locked(
            future_grid(g, others, n - 1),
            o.kind.spec_cell_offsets(o.rotation as nat),
            o.target_x as int,
            o.landing_y as int,
        )
    }
}

/// Number of the first `n` predicted pieces that lock inside the field
/// (each such lock adds 10 to the score).
pub open spec fn fitting_count(others: Seq<PredictedPlacement>, n: int) -> nat
    decreases n,
{
    if n <= 0 {
        0
    } else {
        let o = others[n - 1];
        fitting_count(others, n - 1) + if piece_overflows(o.kind.spec_cell_offsets(o.rotation as nat), o.landing_y as int) {
            0nat
        } else {
            1nat
        }
    }
}

/// The predicted pieces can be locked into `board` in turn: their cells stay
/// within `i32` and the score stays within `u32`.
pub open spec fn predictions_lockable(board: GlobalBoard, others: Seq<PredictedPlacement>) -> bool {
    &&& forall|k: int|
        0 <= k < others.len() ==> (#[trigger] others[k]).target_x <= i32::MAX - 2 && others[k].landing_y <= i32::MAX - 2
    &&& board.score + 10 * fitting_count(others, others.len() as int) <= u32::MAX
}

/// The cells the predicted pieces will take.
pub fn reserved_cells_of(predicted_others: &[PredictedPlacement]) -> (r: Vec<(i32, i32)>)
    requires
        forall|k: int|
            0 <= k < predicted_others@.len() ==> (#[trigger] predicted_others@[k]).target_x <= i32::MAX - 2
                && predicted_others@[k].landing_y <= i32::MAX - 2,
    ensures
        r@ == reserved_of(predicted_others@, predicted_others@.len() as int),
{
    let mut cells: Vec<(i32, i32)> = Vec::new();
    let mut k: usize = 0;
    while k < predicted_others.len()
        invariant
            0 <= k <= predicted_others@.len(),
            forall|j: int|
                0 <= j < predicted_others@.len() ==> (#[trigger] predicted_others@[j]).target_x <= i32::MAX - 2
                    && predicted_others@[j].landing_y <= i32::MAX - 2,
            cells@ == reserved_of(predicted_others@, k as int),
        decreases predicted_others.len() - k,
    {
        let other = predicted_others[k];
        assert(other == predicted_others@[k as int]);
        let offsets = other.kind.cell_offsets(other.rotation);
        proof {
            crate::ai::pathfinding::explore::lemma_offsets_shape(other.kind, other.rotation as nat);
        }
        let ghost base = cells@;
        let ghost offs = offsets@;
        let mut j: usize = 0;
        while j < offsets.len()
            invariant
                0 <= j <= offsets@.len(),
                offs == offsets@,
                offs.len() == 3,
                forall|i: int| 0 <= i < 3 ==> 0 <= #[trigger] offs[i].0 <= 2 && 0 <= offs[i].1 <= 2,
                other.target_x <= i32::MAX - 2,
                other.landing_y <= i32::MAX - 2,
                cells@ == base + Seq::new(
                    j as nat,
                    |i: int| ((other.target_x + offs[i].0) as i32, (other.landing_y + offs[i].1) as i32),
                ),
            decreases offsets.len() - j,
        {
            let (dx, dy) = offsets[j];
            cells.push((other.target_x + dx, other.landing_y + dy));
            assert(cells@ =~= base + Seq::new(
                (j + 1) as nat,
                |i: int| ((other.target_x + offs[i].0) as i32, (other.landing_y + offs[i].1) as i32),
            ));
            j += 1;
        }
        k += 1;
    }
    cells
}

proof fn lemma_fitting_count_mono(others: Seq<PredictedPlacement>, a: int, b: int)
    requires
        0 <= a <= b,
    ensures
        fitting_count(others, a) <= fitting_count(others, b),
    decreases b - a,
{
    if a < b {
        lemma_fitting_count_mono(others, a, b - 1);
    }
}

/// The field with every predicted piece locked in, in order.
pub fn future_board_of(board: &GlobalBoard, predicted_others: &[PredictedPlacement]) -> (r: GlobalBoard)
    requires
        predictions_lockable(*board, predicted_others@),
    ensures
        r.grid() == future_grid(board.grid(), predicted_others@, predicted_others@.len() as int),
{
    let mut future = *board;
    let mut k: usize = 0;
    while k < predicted_others.len()
        invariant
            0 <= k <= predicted_others@.len(),
            predictions_lockable(*board, predicted_others@),
            future.grid() == future_grid(board.grid(), predicted_others@, k as int),
            future.score == board.score + 10 * fitting_count(predicted_others@, k as int),
        decreases predicted_others.len() - k,
    {
        let other = predicted_others[k];
        assert(other == predicted_others@[k as int]);
        proof {
            lemma_fitting_count_mono(predicted_others@, k + 1, predicted_others@.len() as int);
        }
        future.lock_tromino(other.player_id, &other.kind, other.rotation, other.target_x, other.landing_y);
        k += 1;
    }
    future
}

/// Whether some cell of the piece `offsets` at `(x, y)` is one of `reserved`.
pub fn hits_reserved(reserved: &[(i32, i32)], offsets: &Vec<(i32, i32)>, x: i32, y: i32) -> (r: bool)
    requires
        forall|i: int|
            0 <= i < offsets@.len() ==> i32::MIN <= x + #[trigger] offsets@[i].0 <= i32::MAX && i32::MIN <= y
                + offsets@[i].1 <= i32::MAX,
    ensures
        r == exists|i: int| 0 <= i < offsets@.len() && #[trigger] blocked_by(reserved@, x + offsets@[i].0, y + offsets@[i].1),
{
    let mut i: usize = 0;
    while i < offsets.len()
        invariant
            0 <= i <= offsets@.len(),
            forall|k: int|
                0 <= k < offsets@.len() ==> i32::MIN <= x + #[trigger] offsets@[k].0 <= i32::MAX && i32::MIN <= y
                    + offsets@[k].1 <= i32::MAX,
            forall|k: int| 0 <= k < i ==> !#[trigger] blocked_by(reserved@, x + offsets@[k].0, y + offsets@[k].1),
        decreases offsets.len() - i,
    {
        let (dx, dy) = offsets[i];
        if contains_cell(reserved, x + dx, y + dy) {
            assert(blocked_by(reserved@, x + offsets@[i as int].0, y + offsets@[i as int].1));
            return true;
        }
        i += 1;
    }
    false
}

} // verus!
