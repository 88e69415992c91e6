use vstd::prelude::*;
use super::model::{blocked_by, corners_upto, dir_at, fits_clear, raw_path, rev_tree_path, turning_points};
use crate::board::GlobalBoard;
use crate::board::model::piece_fits;
use crate::tromino::TrominoKind;

verus! {

/// Whether `cells` holds `(x, y)`.
pub fn contains_cell(cells: &[(i32, i32)], x: i32, y: i32) -> (r: bool)
    ensures
        r == blocked_by(cells@, x as int, y as int),
{
    let mut j: usize = 0;
    while j < cells.len()
        invariant
            0 <= j <= cells@.len(),
            forall|k: int| 0 <= k < j ==> !(#[trigger] cells@[k].0 == x && cells@[k].1 == y),
        decreases cells.len() - j,
    {
        if cells[j].0 == x && cells[j].1 == y {
            return true;
        }
        j += 1;
    }
    false
}

/// Whether the piece fits the field at `(base_x, base_y)` and none of its cells is
/// one of `obstacles`.
pub fn can_place_check(
    board: &GlobalBoard,
    kind: &TrominoKind,
    rot: usize,
    base_x: i32,
    base_y: i32,
    obstacles: &[(i32, i32)],
) -> (r: bool)
    requires
        base_x <= i32::MAX - 2,
        base_y <= i32::MAX - 2,
    ensures
        r == fits_clear(board.grid(), kind.spec_cell_offsets(rot as nat), obstacles@, base_x as int, base_y as int),
{
    if !board.can_place(kind, rot, base_x, base_y) {
        return false;
    }
    let offsets = kind.cell_offsets(rot);
    let ghost offs = kind.spec_cell_offsets(rot as nat);
    let mut i: usize = 0;
    while i < offsets.len()
        invariant
            offsets@ == offs,
            offs == kind.spec_cell_offsets(rot as nat),
            offs.len() == 3,
            forall|k: int| 0 <= k < offs.len() ==> 0 <= #[trigger] offs[k].0 <= 2 && 0 <= offs[k].1 <= 2,
            base_x <= i32::MAX - 2,
            base_y <= i32::MAX - 2,
            piece_fits(board.grid(), offs, base_x as int, base_y as int),
            0 <= i <= offsets.len(),
            forall|k: int| 0 <= k < i ==> !blocked_by(obstacles@, base_x + #[trigger] offs[k].0, base_y + offs[k].1),
        decreases offsets.len() - i,
    {
        let (dx, dy) = offsets[i];
        if contains_cell(obstacles, base_x + dx, base_y + dy) {
            assert(blocked_by(obstacles@, base_x + offs[i as int].0, base_y + offs[i as int].1));
            return false;
        }
        i += 1;
    }
    true
}

/// A search tree over piece positions: `nodes[0]` is the root, and every other
/// node `i` was reached from `nodes[parents[i]]`, an earlier node.
#[derive(Debug)]
pub struct SearchTree {
    pub nodes: Vec<(i32, i32)>,
    pub parents: Vec<usize>,
}

impl SearchTree {
    /// A root, one parent per node, parents listed before their children, and
    /// no position recorded twice.
    pub open spec fn wf(&self) -> bool {
        &&& self.nodes@.len() >= 1
        &&& self.parents@.len() == self.nodes@.len()
        &&& forall|i: int| 0 < i < self.parents@.len() ==> #[trigger] self.parents@[i] < i
        &&& self.nodes@.no_duplicates()
    }
}

proof fn lemma_rev_tree_path_first(nodes: Seq<(i32, i32)>, parents: Seq<usize>, i: int)
    ensures
        rev_tree_path(nodes, parents, i).len() >= 1,
        rev_tree_path(nodes, parents, i)[0] == nodes[i],
    decreases i,
{
}

/// Waypoints for reaching `(target_x, best_y)`: the route recorded in `tree`
/// (or the target alone when the tree does not hold it), reduced to the points
/// where the direction of travel changes, followed by the target.
pub fn reconstruct_waypoints(tree: &SearchTree, target_x: i32, best_y: i32) -> (r: Vec<(i32, i32)>)
    requires
        tree.wf(),
    ensures
        r@ == turning_points(raw_path(tree.nodes@, tree.parents@, (target_x, best_y))),
{
    let ghost nodes = tree.nodes@;
    let ghost parents = tree.parents@;
    let ghost t = (target_x, best_y);
    // Locate the target among the tree's nodes.
    let mut found: Option<usize> = None;
    let mut j: usize = 0;
    while j < tree.nodes.len()
        invariant_except_break
            found is None,
        invariant
            0 <= j <= nodes.len(),
            nodes == tree.nodes@,
            t == (target_x, best_y),
            forall|k: int| 0 <= k < j ==> #[trigger] nodes[k] != t,
        ensures
            0 <= j <= nodes.len(),
            forall|k: int| 0 <= k < j ==> #[trigger] nodes[k] != t,
            found is None ==> j == nodes.len(),
            found matches Some(jj) ==> jj == j && j < nodes.len() && nodes[j as int] == t,
        decreases tree.nodes.len() - j,
    {
        if tree.nodes[j].0 == target_x && tree.nodes[j].1 == best_y {
            found = Some(j);
            break;
        }
        j += 1;
    }
    // Walk from the target up to the root.
    let mut rev: Vec<(i32, i32)> = Vec::new();
    match found {
        None => {
            assert(!nodes.contains(t));
            rev.push((target_x, best_y));
            assert(rev@ =~= raw_path(nodes, parents, t).reverse());
        },
        Some(jj) => {
            assert(nodes.contains(t));
            assert(nodes.index_of(t) == jj as int) by {
                let k = nodes.index_of(t);
                assert(nodes[k] == t);
                assert(nodes[jj as int] == t);
                assert(nodes.no_duplicates());
            }
            let mut curr = jj;
            rev.push(tree.nodes[jj]);
            proof {
                lemma_rev_tree_path_first(nodes, parents, jj as int);
                assert(rev@ + rev_tree_path(nodes, parents, jj as int).drop_first() =~= rev_tree_path(
                    nodes,
                    parents,
                    jj as int,
                ));
            }
            while curr != 0
                invariant
                    tree.wf(),
                    nodes == tree.nodes@,
                    parents == tree.parents@,
                    curr < nodes.len(),
                    rev@ + rev_tree_path(nodes, parents, curr as int).drop_first() == rev_tree_path(
                        nodes,
                        parents,
                        jj as int,
                    ),
                decreases curr,
            {
                let p = tree.parents[curr];
                proof {
                    lemma_rev_tree_path_first(nodes, parents, p as int);
                    assert(rev_tree_path(nodes, parents, curr as int).drop_first() =~= rev_tree_path(
                        nodes,
                        parents,
                        p as int,
                    ));
                }
                let ghost old_rev = rev@;
                rev.push(tree.nodes[p]);
                proof {
                    assert(rev@ + rev_tree_path(nodes, parents, p as int).drop_first() =~= old_rev
                        + rev_tree_path(nodes, parents, p as int));
                }
                curr = p;
            }
            assert(rev_tree_path(nodes, parents, 0).drop_first() =~= Seq::<(i32, i32)>::empty());
            assert(rev@ =~= rev_tree_path(nodes, parents, jj as int));
            proof {
                let s = rev_tree_path(nodes, parents, jj as int);
                assert(s.reverse().reverse() =~= s);
            }
        },
    }
    // Put the route in travel order.
    let ghost p = raw_path(nodes, parents, t);
    let n = rev.len();
    let mut raw: Vec<(i32, i32)> = Vec::new();
    let mut i: usize = 0;
    while i < n
        invariant
            n == rev@.len(),
            rev@ == p.reverse(),
            0 <= i <= n,
            raw@ =~= p.subrange(0, i as int),
        decreases n - i,
    {
        raw.push(rev[n - 1 - i]);
        i += 1;
    }
    assert(raw@ =~= p);
    proof {
        if nodes.contains(t) {
            let k = nodes.index_of(t);
            lemma_rev_tree_path_first(nodes, parents, k);
        }
    }
    assert(p.len() >= 1);
    assert(p.last() == t);
    // Compress the route to its turning points.
    let mut waypoints: Vec<(i32, i32)> = Vec::new();
    if n <= 2 {
        waypoints.push(raw[0]);
        if n == 2 && !(raw[1].0 == raw[0].0 && raw[1].1 == raw[0].1) {
            waypoints.push(raw[1]);
        }
        assert(waypoints@ =~= turning_points(p));
    } else {
        let mut prev_dx: i64 = raw[1].0 as i64 - raw[0].0 as i64;
        let mut prev_dy: i64 = raw[1].1 as i64 - raw[0].1 as i64;
        let mut k: usize = 2;
        while k < n
            invariant
                raw@ == p,
                n == p.len(),
                2 <= k <= n,
                prev_dx == dir_at(p, k - 1).0,
                prev_dy == dir_at(p, k - 1).1,
                waypoints@ == corners_upto(p, k as int),
            decreases n - k,
        {
            let cur_dx: i64 = raw[k].0 as i64 - raw[k - 1].0 as i64;
            let cur_dy: i64 = raw[k].1 as i64 - raw[k - 1].1 as i64;
            if cur_dx != prev_dx || cur_dy != prev_dy {
                waypoints.push(raw[k - 1]);
                prev_dx = cur_dx;
                prev_dy = cur_dy;
            }
            k += 1;
        }
        waypoints.push((target_x, best_y));
    }
    waypoints
}

} // verus!
