//! Locking a piece and clearing full rows, stated on the occupancy grid, so
//! both board representations can be held to the same description.

use vstd::prelude::*;
use super::model::{full_row_indices, kept_rows, piece_covers};
use crate::config::{LANE_HEIGHT, TOTAL_GRID_WIDTH};

verus! {

/// Every column of the occupancy row is filled.
pub open spec fn grid_row_full(row: Seq<bool>) -> bool {
    forall|x: int| 0 <= x < TOTAL_GRID_WIDTH ==> #[trigger] row[x]
}

/// `grid_row_full` as a predicate value.
pub open spec fn grid_full_pred() -> spec_fn(Seq<bool>) -> bool {
    |r: Seq<bool>| grid_row_full(r)
}

/// An empty occupancy row.
pub open spec fn empty_row() -> Seq<bool> {
    Seq::new(TOTAL_GRID_WIDTH as nat, |x: int| false)
}

/// The grid with the piece `offs` placed at `(bx, by)` filled in; cells
/// outside the field are dropped.
pub open spec fn grid_locked(g: Seq<Seq<bool>>, offs: Seq<(i32, i32)>, bx: int, by: int) -> Seq<Seq<bool>> {
    Seq::new(
        LANE_HEIGHT as nat,
        |y: int| Seq::new(TOTAL_GRID_WIDTH as nat, |x: int| g[y][x] || piece_covers(offs, bx, by, x, y)),
    )
}

/// Indices of the full rows of the grid, bottom to top.
pub open spec fn grid_full_rows(g: Seq<Seq<bool>>) -> Seq<usize> {
    full_row_indices(g, grid_full_pred(), LANE_HEIGHT as int)
}

/// The grid with its full rows removed: the other rows keep their order and
/// drop to the bottom, empty rows fill the top.
pub open spec fn grid_cleared(g: Seq<Seq<bool>>) -> Seq<Seq<bool>> {
    let kept = kept_rows(g, grid_full_pred(), LANE_HEIGHT as int);
    Seq::new(LANE_HEIGHT as nat, |y: int| if y < kept.len() { kept[y] } else { empty_row() })
}

/// Removing full rows commutes with a row-by-row view that keeps fullness:
/// the kept rows of the view are the views of the kept rows, and the full
/// rows are the same.
pub proof fn lemma_kept_view<A>(
    rows: Seq<A>,
    full: spec_fn(A) -> bool,
    view: spec_fn(A) -> Seq<bool>,
    g: Seq<Seq<bool>>,
    n: int,
)
    requires
        0 <= n <= rows.len(),
        n <= g.len(),
        forall|i: int| 0 <= i < n ==> #[trigger] g[i] == view(rows[i]) && full(rows[i]) == grid_row_full(g[i]),
    ensures
        kept_rows(g, grid_full_pred(), n).len() == kept_rows(rows, full, n).len(),
        forall|k: int|
            0 <= k < kept_rows(rows, full, n).len() ==> #[trigger] kept_rows(g, grid_full_pred(), n)[k] == view(
                kept_rows(rows, full, n)[k],
            ),
        full_row_indices(g, grid_full_pred(), n) == full_row_indices(rows, full, n),
    decreases n,
{
    if n > 0 {
        lemma_kept_view(rows, full, view, g, n - 1);
        assert(g[n - 1] == view(rows[n - 1]));
    }
}

/// An empty row of `n` cells.
pub open spec fn blank_row(n: nat) -> Seq<bool> {
    Seq::new(n, |x: int| false)
}

/// A grid whose rows may be wider than the field (such as the 32 bits of a
/// bitboard word) with the piece `offs` placed at `(bx, by)` filled in; only
/// cells inside the field are set.
pub open spec fn wide_locked(w: Seq<Seq<bool>>, offs: Seq<(i32, i32)>, bx: int, by: int, width: nat) -> Seq<Seq<bool>> {
    Seq::new(
        LANE_HEIGHT as nat,
        |y: int| Seq::new(width, |x: int| w[y][x] || (x < TOTAL_GRID_WIDTH && piece_covers(offs, bx, by, x, y))),
    )
}

/// A grid of rows `width` cells wide with the rows full across the field
/// removed, the others dropped to the bottom and blank rows on top.
pub open spec fn wide_cleared(w: Seq<Seq<bool>>, width: nat) -> Seq<Seq<bool>> {
    let kept = kept_rows(w, grid_full_pred(), LANE_HEIGHT as int);
    Seq::new(LANE_HEIGHT as nat, |y: int| if y < kept.len() { kept[y] } else { blank_row(width) })
}

/// The 32-bit words of a bitboard holding exactly the grid's cells.
pub open spec fn grid_words(g: Seq<Seq<bool>>) -> Seq<Seq<bool>> {
    Seq::new(LANE_HEIGHT as nat, |y: int| Seq::new(32, |x: int| x < TOTAL_GRID_WIDTH && g[y][x]))
}

} // verus!
