//! Specification of the landing search: legal moves of a piece, move paths,
//! the search tree the search returns, and the waypoint compression.

use vstd::prelude::*;
use crate::board::model::piece_fits;

verus! {

/// Some cell of `cells` equals `(x, y)`.
pub open spec fn blocked_by(cells: Seq<(i32, i32)>, x: int, y: int) -> bool {
    exists|j: int| 0 <= j < cells.len() && cells[j].0 == x && cells[j].1 == y
}

/// The piece fits the field at `(x, y)` and none of its cells is one of `reserved`.
pub open spec fn fits_clear(
    g: Seq<Seq<bool>>,
    offs: Seq<(i32, i32)>,
    reserved: Seq<(i32, i32)>,
    x: int,
    y: int,
) -> bool {
    &&& piece_fits(g, offs, x, y)
    &&& forall|i: int| 0 <= i < offs.len() ==> !blocked_by(reserved, x + #[trigger] offs[i].0, y + offs[i].1)
}

/// Path from the root of a search tree to node `i`, listed from node `i` back to the root.
pub open spec fn rev_tree_path(nodes: Seq<(i32, i32)>, parents: Seq<usize>, i: int) -> Seq<(i32, i32)>
    decreases i,
{
    if 0 < i < parents.len() && parents[i] < i {
        seq![nodes[i]] + rev_tree_path(nodes, parents, parents[i] as int)
    } else {
        seq![nodes[i]]
    }
}

/// The route to `t` recorded by a search tree: the tree path from the root to
/// `t` when `t` is a node of the tree, otherwise `t` alone.
pub open spec fn raw_path(nodes: Seq<(i32, i32)>, parents: Seq<usize>, t: (i32, i32)) -> Seq<(i32, i32)> {
    if nodes.contains(t) {
        rev_tree_path(nodes, parents, nodes.index_of(t)).reverse()
    } else {
        seq![t]
    }
}

/// Direction of the step that enters point `i` of a path.
pub open spec fn dir_at(p: Seq<(i32, i32)>, i: int) -> (int, int) {
    (p[i].0 - p[i - 1].0, p[i].1 - p[i - 1].1)
}

/// Corner points among the first `n` points of a path: each point where the
/// direction of travel changes.
pub open spec fn corners_upto(p: Seq<(i32, i32)>, n: int) -> Seq<(i32, i32)>
    decreases n,
{
    if n <= 2 {
        seq![]
    } else if dir_at(p, n - 1) != dir_at(p, n - 2) {
        corners_upto(p, n - 1).push(p[n - 2])
    } else {
        corners_upto(p, n - 1)
    }
}

/// Waypoints of a path: for paths of one or two points the distinct points;
/// otherwise the corners followed by the end point.
pub open spec fn turning_points(p: Seq<(i32, i32)>) -> Seq<(i32, i32)> {
    if p.len() <= 1 {
        p
    } else if p.len() == 2 {
        if p[0] == p[1] { seq![p[0]] } else { p }
    } else {
        corners_upto(p, p.len() as int).push(p.last())
    }
}

} // verus!

verus! {

/// Smallest horizontal offset among the first three cells of a shape.
pub open spec fn min_dx(offs: Seq<(i32, i32)>) -> int {
    vstd::math::min(vstd::math::min(offs[0].0 as int, offs[1].0 as int), offs[2].0 as int)
}

/// Largest horizontal offset among the first three cells of a shape.
pub open spec fn max_dx(offs: Seq<(i32, i32)>) -> int {
    vstd::math::max(vstd::math::max(offs[0].0 as int, offs[1].0 as int), offs[2].0 as int)
}

/// Largest vertical offset among the first three cells of a shape.
pub open spec fn max_dy(offs: Seq<(i32, i32)>) -> int {
    vstd::math::max(vstd::math::max(offs[0].1 as int, offs[1].1 as int), offs[2].1 as int)
}

/// A sideways move to column `nx` from row `cy` is allowed: always in open
/// air, and for a piece still in the spawn band only while it stays inside
/// its own lane's columns `slot`.
pub open spec fn lateral_ok(slot: Option<(i32, i32)>, offs: Seq<(i32, i32)>, nx: int, cy: int) -> bool {
    match slot {
        None => true,
        Some(r) => (nx + min_dx(offs) >= r.0 && nx + max_dx(offs) <= r.1) || cy + max_dy(offs)
            < crate::config::SPAWN_WALL_MIN_Y,
    }
}

/// The movement rules of one landing search: the field, the piece's cells,
/// cells reserved by other players' predicted landings, and the lane columns a
/// piece must stay within while in the spawn band (none for a piece in open air).
pub struct DropRules {
    pub grid: Seq<Seq<bool>>,
    pub offsets: Seq<(i32, i32)>,
    pub reserved: Seq<(i32, i32)>,
    pub slot: Option<(i32, i32)>,
}

impl DropRules {
    /// The piece can stand with its origin at `(x, y)`.
    pub open spec fn fits(self, x: int, y: int) -> bool {
        fits_clear(self.grid, self.offsets, self.reserved, x, y)
    }

    /// The piece at `(x, y)` can move one row down.
    pub open spec fn can_descend(self, x: int, y: int) -> bool {
        y > 0 && self.fits(x, y - 1)
    }

    /// One legal move from `a` to `b`: one row down, or one column sideways
    /// within the side walls.
    pub open spec fn step(self, a: (i32, i32), b: (i32, i32)) -> bool {
        ||| (b.0 == a.0 && b.1 == a.1 - 1 && self.can_descend(a.0 as int, a.1 as int))
        ||| ((b.0 == a.0 - 1 || b.0 == a.0 + 1) && b.1 == a.1 && lateral_ok(
            self.slot,
            self.offsets,
            b.0 as int,
            a.1 as int,
        ) && b.0 >= -min_dx(self.offsets) && b.0 + max_dx(self.offsets)
            < crate::config::TOTAL_GRID_WIDTH && self.fits(b.0 as int, b.1 as int))
    }

    /// `p` is a sequence of legal moves.
    pub open spec fn is_path(self, p: Seq<(i32, i32)>) -> bool {
        &&& p.len() >= 1
        &&& forall|k: int| 0 <= k < p.len() - 1 ==> #[trigger] self.step(p[k], p[k + 1])
    }

    /// `b` can be reached from `s` by legal moves.
    pub open spec fn reachable(self, s: (i32, i32), b: (i32, i32)) -> bool {
        exists|p: Seq<(i32, i32)>| #[trigger] self.is_path(p) && p[0] == s && p.last() == b
    }

    /// From `s` the piece can come to rest in column `target` at row `y`.
    pub open spec fn rests(self, s: (i32, i32), target: i32, y: i32) -> bool {
        self.reachable(s, (target, y)) && !self.can_descend(target as int, y as int)
    }

    /// `y` is the lowest row at which the piece can come to rest in column `target`.
    pub open spec fn lowest_rest_at(self, s: (i32, i32), target: i32, y: i32) -> bool {
        &&& self.rests(s, target, y)
        &&& forall|y2: i32| #[trigger] self.rests(s, target, y2) ==> y <= y2
    }

    /// The lowest resting row in column `target` reachable from `s`, if any.
    pub open spec fn lowest_rest(self, s: (i32, i32), target: i32) -> Option<i32> {
        if exists|y: i32| self.lowest_rest_at(s, target, y) {
            Some(choose|y: i32| self.lowest_rest_at(s, target, y))
        } else {
            None
        }
    }
}

/// Path from the root of a search tree to node `i`, in travel order.
pub open spec fn tree_path(nodes: Seq<(i32, i32)>, parents: Seq<usize>, i: int) -> Seq<(i32, i32)>
    decreases i,
{
    if 0 < i < parents.len() && parents[i] < i {
        tree_path(nodes, parents, parents[i] as int).push(nodes[i])
    } else {
        seq![nodes[i]]
    }
}

} // verus!
