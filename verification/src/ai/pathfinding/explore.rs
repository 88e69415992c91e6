//! Breadth-first exploration of the positions a piece can move to.

use vstd::prelude::*;
use vstd::set_lib::{lemma_int_range, lemma_len_subset, set_int_range};
use super::common::{can_place_check, SearchTree};
use super::model::{
    fits_clear, lateral_ok, max_dx, max_dy, min_dx, rev_tree_path, tree_path, DropRules,
};
use crate::board::GlobalBoard;
use crate::board::model::{occupied, piece_fits};
use crate::config::TOTAL_GRID_WIDTH;
use crate::tromino::TrominoKind;

verus! {

/// The rules of a search with the given field, piece and reserved cells.
pub open spec fn rules_of(
    board: GlobalBoard,
    kind: TrominoKind,
    rot: nat,
    reserved: Seq<(i32, i32)>,
    slot: Option<(i32, i32)>,
) -> DropRules {
    DropRules { grid: board.grid(), offsets: kind.spec_cell_offsets(rot), reserved, slot }
}

/// Offsets of every shape lie in `0..=2`, include column 0 and row 0, and the
/// extents are what the shape spans.
pub proof fn lemma_offsets_shape(kind: TrominoKind, rot: nat)
    ensures
        kind.spec_cell_offsets(rot).len() == 3,
        min_dx(kind.spec_cell_offsets(rot)) == 0,
        0 <= max_dx(kind.spec_cell_offsets(rot)) <= 2,
        0 <= max_dy(kind.spec_cell_offsets(rot)) <= 2,
        forall|i: int|
            0 <= i < 3 ==> 0 <= #[trigger] kind.spec_cell_offsets(rot)[i].0 <= max_dx(
                kind.spec_cell_offsets(rot),
            ) && 0 <= kind.spec_cell_offsets(rot)[i].1 <= max_dy(kind.spec_cell_offsets(rot)),
        exists|i: int| 0 <= i < 3 && #[trigger] kind.spec_cell_offsets(rot)[i].0 == 0,
        exists|i: int| 0 <= i < 3 && #[trigger] kind.spec_cell_offsets(rot)[i].1 == 0,
        exists|i: int|
            0 <= i < 3 && #[trigger] kind.spec_cell_offsets(rot)[i].0 == max_dx(
                kind.spec_cell_offsets(rot),
            ),
{
    let o = kind.spec_cell_offsets(rot);
    assert(o[0].0 == 0 || o[1].0 == 0 || o[2].0 == 0);
    assert(o[0].1 == 0 || o[1].1 == 0 || o[2].1 == 0);
    assert(o[0].0 == max_dx(o) || o[1].0 == max_dx(o) || o[2].0 == max_dx(o));
}

/// A position where the piece fits keeps every cell inside the side walls and above the floor.
pub proof fn lemma_fits_bounds(g: Seq<Seq<bool>>, kind: TrominoKind, rot: nat, res: Seq<(i32, i32)>, x: int, y: int)
    requires
        fits_clear(g, kind.spec_cell_offsets(rot), res, x, y),
    ensures
        0 <= x,
        x + max_dx(kind.spec_cell_offsets(rot)) < TOTAL_GRID_WIDTH,
        0 <= y,
{
    let o = kind.spec_cell_offsets(rot);
    lemma_offsets_shape(kind, rot);
    let i0 = choose|i: int| 0 <= i < 3 && #[trigger] o[i].0 == 0;
    let i1 = choose|i: int| 0 <= i < 3 && #[trigger] o[i].1 == 0;
    let i2 = choose|i: int| 0 <= i < 3 && #[trigger] o[i].0 == max_dx(o);
    assert(!occupied(g, x + o[i0].0, y + o[i0].1));
    assert(!occupied(g, x + o[i1].0, y + o[i1].1));
    assert(!occupied(g, x + o[i2].0, y + o[i2].1));
}

/// Distinct points of the box `[0, W) x [0, ymax]` number at most `W * (ymax + 1)`.
proof fn lemma_box_count(s: Seq<(i32, i32)>, ymax: int)
    requires
        s.no_duplicates(),
        ymax >= 0,
        forall|i: int|
            0 <= i < s.len() ==> 0 <= #[trigger] s[i].0 < TOTAL_GRID_WIDTH && 0 <= s[i].1 <= ymax,
    ensures
        s.len() <= TOTAL_GRID_WIDTH * (ymax + 1),
{
    let f = |p: (i32, i32)| p.1 as int * TOTAL_GRID_WIDTH + p.0 as int;
    let t = s.map_values(f);
    assert forall|i: int, j: int| 0 <= i < t.len() && 0 <= j < t.len() && i != j implies t[i] != t[j] by {
        assert(s[i] != s[j]);
        assert(t[i] == s[i].1 as int * 31 + s[i].0 as int);
        assert(t[j] == s[j].1 as int * 31 + s[j].0 as int);
    }
    assert(t.no_duplicates());
    t.unique_seq_to_set();
    let hi = TOTAL_GRID_WIDTH * (ymax + 1);
    assert(hi == 31 * (ymax + 1));
    lemma_int_range(0, hi);
    assert(t.to_set().subset_of(set_int_range(0, hi))) by {
        assert forall|v: int| t.to_set().contains(v) implies set_int_range(0, hi).contains(v) by {
            assert(t.contains(v));
            let i = choose|i: int| 0 <= i < t.len() && t[i] == v;
            assert(0 <= s[i].0 < 31 && 0 <= s[i].1 <= ymax);
            assert(t[i] == s[i].1 as int * 31 + s[i].0 as int);
            assert(0 <= v < hi) by (nonlinear_arith)
                requires
                    v == s[i].1 as int * 31 + s[i].0 as int,
                    0 <= s[i].0 < 31,
                    0 <= s[i].1 <= ymax,
                    hi == 31 * (ymax + 1),
            ;
        }
    }
    lemma_len_subset(t.to_set(), set_int_range(0, hi));
}

/// Every tree path is a sequence of legal moves from the root to its node.
proof fn lemma_tree_paths(rules: DropRules, nodes: Seq<(i32, i32)>, parents: Seq<usize>, i: int)
    requires
        0 <= i < nodes.len(),
        parents.len() == nodes.len(),
        forall|k: int|
            0 < k < nodes.len() ==> #[trigger] parents[k] < k && rules.step(nodes[parents[k] as int], nodes[k]),
    ensures
        rules.is_path(tree_path(nodes, parents, i)),
        tree_path(nodes, parents, i)[0] == nodes[0],
        tree_path(nodes, parents, i).last() == nodes[i],
    decreases i,
{
    if i > 0 {
        let p = parents[i] as int;
        lemma_tree_paths(rules, nodes, parents, p);
        let q = tree_path(nodes, parents, p);
        let r = q.push(nodes[i]);
        assert(tree_path(nodes, parents, i) == r);
        assert forall|k: int| 0 <= k < r.len() - 1 implies #[trigger] rules.step(r[k], r[k + 1]) by {
            if k < q.len() - 1 {
                assert(rules.step(q[k], q[k + 1]));
            }
        }
    }
}

/// Reading a tree path backwards gives the path in travel order.
pub proof fn lemma_rev_tree_path(nodes: Seq<(i32, i32)>, parents: Seq<usize>, i: int)
    ensures
        rev_tree_path(nodes, parents, i).reverse() == tree_path(nodes, parents, i),
    decreases i,
{
    if 0 < i < parents.len() && parents[i] < i {
        let p = parents[i] as int;
        lemma_rev_tree_path(nodes, parents, p);
        let a = rev_tree_path(nodes, parents, p);
        let s = seq![nodes[i]] + a;
        assert(s.reverse() =~= a.reverse().push(nodes[i]));
    } else {
        assert(seq![nodes[i]].reverse() =~= seq![nodes[i]]);
    }
}

/// When every successor of every node is a node, every path that starts at a
/// node stays among the nodes.
proof fn lemma_closed_paths(rules: DropRules, nodes: Seq<(i32, i32)>, p: Seq<(i32, i32)>, k: int)
    requires
        forall|i: int, b: (i32, i32)|
            0 <= i < nodes.len() && #[trigger] rules.step(nodes[i], b) ==> nodes.contains(b),
        rules.is_path(p),
        nodes.contains(p[0]),
        0 <= k < p.len(),
    ensures
        nodes.contains(p[k]),
    decreases k,
{
    if k > 0 {
        lemma_closed_paths(rules, nodes, p, k - 1);
        let i = choose|i: int| 0 <= i < nodes.len() && nodes[i] == p[k - 1];
        assert(rules.step(p[k - 1], p[(k - 1) + 1]));
        assert(rules.step(nodes[i], p[k]));
    }
}

/// Whether `nodes` holds `(x, y)`.
/// Adds `b`, reached from node `head`, when it is a legal move from there and
/// not yet a node.
pub open spec fn tree_add(rules: DropRules, t: (Seq<(i32, i32)>, Seq<usize>), head: int, b: (i32, i32)) -> (
    Seq<(i32, i32)>,
    Seq<usize>,
) {
    if rules.step(t.0[head], b) && !t.0.contains(b) {
        (t.0.push(b), t.1.push(head as usize))
    } else {
        t
    }
}

/// Processes node `head`: tries the moves down, left and right, in that order.
pub open spec fn tree_expand(rules: DropRules, t: (Seq<(i32, i32)>, Seq<usize>), head: int) -> (
    Seq<(i32, i32)>,
    Seq<usize>,
) {
    let h = t.0[head];
    let t1 = tree_add(rules, t, head, (h.0, (h.1 - 1) as i32));
    let t2 = tree_add(rules, t1, head, ((h.0 - 1) as i32, h.1));
    tree_add(rules, t2, head, ((h.0 + 1) as i32, h.1))
}

/// The breadth-first search tree from `start` after processing `k` nodes in
/// the order they were found.
pub open spec fn bfs_after(rules: DropRules, start: (i32, i32), k: nat) -> (Seq<(i32, i32)>, Seq<usize>)
    decreases k,
{
    if k == 0 {
        (seq![start], seq![0usize])
    } else {
        let t = bfs_after(rules, start, (k - 1) as nat);
        if k - 1 < t.0.len() {
            tree_expand(rules, t, k - 1)
        } else {
            t
        }
    }
}

/// The complete breadth-first search tree from `start`: once every node has
/// been processed, which happens within `TOTAL_GRID_WIDTH * (start.1 + 1)` steps.
pub open spec fn bfs_tree(rules: DropRules, start: (i32, i32)) -> (Seq<(i32, i32)>, Seq<usize>) {
    bfs_after(rules, start, (TOTAL_GRID_WIDTH * (start.1 + 1)) as nat)
}

/// Once all nodes are processed the tree no longer changes.
proof fn lemma_bfs_stable(rules: DropRules, start: (i32, i32), k0: nat, k: nat)
    requires
        k0 <= k,
        bfs_after(rules, start, k0).0.len() == k0,
    ensures
        bfs_after(rules, start, k) == bfs_after(rules, start, k0),
    decreases k - k0,
{
    if k > k0 {
        lemma_bfs_stable(rules, start, k0, (k - 1) as nat);
    }
}

fn has_node(nodes: &Vec<(i32, i32)>, x: i32, y: i32) -> (r: bool)
    ensures
        r == nodes@.contains((x, y)),
{
    let mut j: usize = 0;
    while j < nodes.len()
        invariant
            0 <= j <= nodes@.len(),
            forall|k: int| 0 <= k < j ==> #[trigger] nodes@[k] != (x, y),
        decreases nodes.len() - j,
    {
        if nodes[j].0 == x && nodes[j].1 == y {
            assert(nodes@[j as int] == (x, y));
            return true;
        }
        j += 1;
    }
    false
}

/// Shape of a search tree under construction: rooted at `start`, no repeated
/// position, every node a fitting position inside the box `[0, W) x [0, ymax]`,
/// every non-root node one legal move from its (earlier) parent.
spec fn tree_ok(
    rules: DropRules,
    nodes: Seq<(i32, i32)>,
    parents: Seq<usize>,
    start: (i32, i32),
    ymax: int,
) -> bool {
    &&& nodes.len() == parents.len()
    &&& nodes.len() >= 1
    &&& nodes[0] == start
    &&& nodes.no_duplicates()
    &&& forall|i: int|
        0 <= i < nodes.len() ==> {
            &&& rules.fits((#[trigger] nodes[i]).0 as int, nodes[i].1 as int)
            &&& 0 <= nodes[i].0 < TOTAL_GRID_WIDTH
            &&& 0 <= nodes[i].1 <= ymax
        }
    &&& forall|i: int|
        0 < i < nodes.len() ==> #[trigger] parents[i] < i && rules.step(nodes[parents[i] as int], nodes[i])
}

/// Every successor of each of the first `k` nodes is a node.
spec fn closed_upto(rules: DropRules, nodes: Seq<(i32, i32)>, k: int) -> bool {
    forall|i: int, b: (i32, i32)| 0 <= i < k && #[trigger] rules.step(nodes[i], b) ==> nodes.contains(b)
}

/// `lowest` is the lowest resting row in column `target` among the first `k` nodes.
spec fn lowest_ok(rules: DropRules, nodes: Seq<(i32, i32)>, k: int, target: i32, lowest: Option<i32>) -> bool {
    match lowest {
        None => forall|i: int|
            0 <= i < k && (#[trigger] nodes[i]).0 == target ==> rules.can_descend(
                nodes[i].0 as int,
                nodes[i].1 as int,
            ),
        Some(v) => {
            &&& exists|i: int|
                0 <= i < k && #[trigger] nodes[i] == (target, v) && !rules.can_descend(target as int, v as int)
            &&& forall|i: int|
                0 <= i < k && (#[trigger] nodes[i]).0 == target && !rules.can_descend(
                    nodes[i].0 as int,
                    nodes[i].1 as int,
                ) ==> v <= nodes[i].1
        },
    }
}

proof fn lemma_contains_push(s: Seq<(i32, i32)>, a: (i32, i32), b: (i32, i32))
    requires
        s.contains(a),
    ensures
        s.push(b).contains(a),
{
    let k = choose|k: int| 0 <= k < s.len() && s[k] == a;
    assert(s.push(b)[k] == a);
}

proof fn lemma_closed_push(rules: DropRules, nodes: Seq<(i32, i32)>, k: int, b: (i32, i32))
    requires
        closed_upto(rules, nodes, k),
        k <= nodes.len(),
    ensures
        closed_upto(rules, nodes.push(b), k),
{
    assert forall|i: int, c: (i32, i32)| 0 <= i < k && #[trigger] rules.step(nodes.push(b)[i], c) implies nodes.push(
        b,
    ).contains(c) by {
        assert(nodes.push(b)[i] == nodes[i]);
        assert(rules.step(nodes[i], c));
        lemma_contains_push(nodes, c, b);
    }
}

/// Adds `b`, a legal move from node `from`, to the tree unless it is already there.
fn push_if_new(
    nodes: &mut Vec<(i32, i32)>,
    parents: &mut Vec<usize>,
    from: usize,
    b: (i32, i32),
    Ghost(rules): Ghost<DropRules>,
    Ghost(start): Ghost<(i32, i32)>,
    Ghost(ymax): Ghost<int>,
)
    requires
        tree_ok(rules, old(nodes)@, old(parents)@, start, ymax),
        from < old(nodes)@.len(),
        rules.step(old(nodes)@[from as int], b),
        rules.fits(b.0 as int, b.1 as int),
        0 <= b.0 < TOTAL_GRID_WIDTH,
        0 <= b.1 <= ymax,
    ensures
        tree_ok(rules, final(nodes)@, final(parents)@, start, ymax),
        final(nodes)@.contains(b),
        final(nodes)@ == old(nodes)@ || final(nodes)@ == old(nodes)@.push(b),
        (final(nodes)@, final(parents)@) == tree_add(rules, (old(nodes)@, old(parents)@), from as int, b),
{
    if !has_node(nodes, b.0, b.1) {
        let ghost n0 = nodes@;
        let ghost p0 = parents@;
        nodes.push(b);
        parents.push(from);
        proof {
            assert(nodes@ == n0.push(b));
            assert(nodes@[n0.len() as int] == b);
            assert forall|i: int| 0 < i < nodes@.len() implies #[trigger] parents@[i] < i && rules.step(
                nodes@[parents@[i] as int],
                nodes@[i],
            ) by {
                if i < n0.len() {
                    assert(parents@[i] == p0[i]);
                    assert(nodes@[parents@[i] as int] == n0[parents@[i] as int]);
                }
            }
            assert forall|i: int, j: int| 0 <= i < nodes@.len() && 0 <= j < nodes@.len() && i != j implies nodes@[i]
                != nodes@[j] by {
                if i < n0.len() && j < n0.len() {
                    assert(n0[i] != n0[j]);
                } else if i < n0.len() {
                    assert(n0[i] != b);
                } else if j < n0.len() {
                    assert(n0[j] != b);
                }
            }
        }
    }
}

/// Records node `k` in the running minimum when it rests in column `target`.
fn note_resting(
    lowest: Option<i32>,
    cx: i32,
    cy: i32,
    can_move_down: bool,
    target_x: i32,
    Ghost(rules): Ghost<DropRules>,
    Ghost(nodes): Ghost<Seq<(i32, i32)>>,
    Ghost(k): Ghost<int>,
) -> (r: Option<i32>)
    requires
        0 <= k < nodes.len(),
        nodes[k] == (cx, cy),
        can_move_down == rules.can_descend(cx as int, cy as int),
        lowest_ok(rules, nodes, k, target_x, lowest),
    ensures
        lowest_ok(rules, nodes, k + 1, target_x, r),
{
    let mut res = lowest;
    if !can_move_down && cx == target_x {
        match lowest {
            None => {
                res = Some(cy);
            },
            Some(prev_y) => {
                if cy < prev_y {
                    res = Some(cy);
                }
            },
        }
    }
    proof {
        match res {
            None => {
                assert forall|i: int| 0 <= i < k + 1 && (#[trigger] nodes[i]).0 == target_x implies rules.can_descend(
                    nodes[i].0 as int,
                    nodes[i].1 as int,
                ) by {
                    if i == k {
                        assert(nodes[i] == (cx, cy));
                    }
                }
            },
            Some(v) => {
                if lowest == res {
                    let i0 = choose|i: int|
                        0 <= i < k && #[trigger] nodes[i] == (target_x, v) && !rules.can_descend(
                            target_x as int,
                            v as int,
                        );
                    assert(0 <= i0 < k + 1 && nodes[i0] == (target_x, v));
                } else {
                    assert(nodes[k] == (target_x, v));
                }
            },
        }
    }
    res
}

/// Processes node `head`: adds each legal move from it that is not yet a node.
fn expand(
    board: &GlobalBoard,
    kind: &TrominoKind,
    rot: usize,
    reserved: &[(i32, i32)],
    slot: Option<(i32, i32)>,
    nodes: &mut Vec<(i32, i32)>,
    parents: &mut Vec<usize>,
    head: usize,
    can_move_down: bool,
    min_dx_v: i32,
    max_dx_v: i32,
    max_dy_v: i32,
    Ghost(rules): Ghost<DropRules>,
    Ghost(start): Ghost<(i32, i32)>,
    Ghost(ymax): Ghost<int>,
)
    requires
        rules == rules_of(*board, *kind, rot as nat, reserved@, slot),
        kind.spec_cell_offsets(rot as nat).len() == 3,
        min_dx_v == 0,
        min_dx_v == min_dx(kind.spec_cell_offsets(rot as nat)),
        max_dx_v == max_dx(kind.spec_cell_offsets(rot as nat)),
        max_dy_v == max_dy(kind.spec_cell_offsets(rot as nat)),
        0 <= max_dx_v <= 2,
        0 <= max_dy_v <= 2,
        0 <= ymax <= i32::MAX - 3,
        head < old(nodes)@.len(),
        tree_ok(rules, old(nodes)@, old(parents)@, start, ymax),
        closed_upto(rules, old(nodes)@, head as int),
        can_move_down == rules.can_descend(old(nodes)@[head as int].0 as int, old(nodes)@[head as int].1 as int),
    ensures
        tree_ok(rules, final(nodes)@, final(parents)@, start, ymax),
        closed_upto(rules, final(nodes)@, head + 1),
        old(nodes)@.len() <= final(nodes)@.len(),
        forall|i: int| 0 <= i < old(nodes)@.len() ==> #[trigger] final(nodes)@[i] == old(nodes)@[i],
        (final(nodes)@, final(parents)@) == tree_expand(rules, (old(nodes)@, old(parents)@), head as int),
{
    let ghost t0 = (nodes@, parents@);
    let (cx, cy) = nodes[head];
    let ghost here = (cx, cy);
    let ghost before = nodes@;
    if can_move_down {
        proof {
            lemma_fits_bounds(board.grid(), *kind, rot as nat, reserved@, cx as int, cy - 1);
            assert(rules.step(here, (cx, (cy - 1) as i32)));
        }
        push_if_new(nodes, parents, head, (cx, cy - 1), Ghost(rules), Ghost(start), Ghost(ymax));
    } else {
        assert(!rules.step(here, (cx, (cy - 1) as i32)));
    }
    let ghost mid1 = nodes@;
    let ghost t1 = (nodes@, parents@);
    assert(t1 == tree_add(rules, t0, head as int, (here.0, (here.1 - 1) as i32)));
    assert(t1.0[head as int] == here);
    let nx = cx - 1;
    let lat_ok = match slot {
        None => true,
        Some((lo, hi)) => (nx + min_dx_v >= lo && nx + max_dx_v <= hi) || cy + max_dy_v
            < crate::config::SPAWN_WALL_MIN_Y as i32,
    };
    let left_ok = lat_ok && nx >= -min_dx_v && nx + max_dx_v < TOTAL_GRID_WIDTH as i32
        && can_place_check(board, kind, rot, nx, cy, reserved);
    if left_ok {
        proof {
            lemma_fits_bounds(board.grid(), *kind, rot as nat, reserved@, nx as int, cy as int);
            assert(rules.step(here, (nx, cy)));
        }
        push_if_new(nodes, parents, head, (nx, cy), Ghost(rules), Ghost(start), Ghost(ymax));
    } else {
        proof {
            if rules.step(here, (nx, cy)) {
                assert(lat_ok);
                assert(rules.fits(nx as int, cy as int));
            }
        }
    }
    let ghost mid2 = nodes@;
    let ghost t2 = (nodes@, parents@);
    assert(t2 == tree_add(rules, t1, head as int, ((here.0 - 1) as i32, here.1)));
    assert(t2.0[head as int] == here);
    let nx2 = cx + 1;
    let lat_ok2 = match slot {
        None => true,
        Some((lo, hi)) => (nx2 + min_dx_v >= lo && nx2 + max_dx_v <= hi) || cy + max_dy_v
            < crate::config::SPAWN_WALL_MIN_Y as i32,
    };
    let right_ok = lat_ok2 && nx2 >= -min_dx_v && nx2 + max_dx_v < TOTAL_GRID_WIDTH as i32
        && can_place_check(board, kind, rot, nx2, cy, reserved);
    if right_ok {
        proof {
            lemma_fits_bounds(board.grid(), *kind, rot as nat, reserved@, nx2 as int, cy as int);
            assert(rules.step(here, (nx2, cy)));
        }
        push_if_new(nodes, parents, head, (nx2, cy), Ghost(rules), Ghost(start), Ghost(ymax));
    } else {
        proof {
            if rules.step(here, (nx2, cy)) {
                assert(lat_ok2);
                assert(rules.fits(nx2 as int, cy as int));
            }
        }
    }
    assert((nodes@, parents@) == tree_add(rules, t2, head as int, ((here.0 + 1) as i32, here.1)));
    proof {
        let k = head as int;
        let ns = nodes@;
        if mid1 != before {
            lemma_closed_push(rules, before, k, mid1.last());
            assert(mid1 =~= before.push(mid1.last()));
        }
        if mid2 != mid1 {
            lemma_closed_push(rules, mid1, k, mid2.last());
            assert(mid2 =~= mid1.push(mid2.last()));
        }
        if ns != mid2 {
            lemma_closed_push(rules, mid2, k, ns.last());
            assert(ns =~= mid2.push(ns.last()));
        }
        assert(ns[k] == here);
        let down = (cx, (cy - 1) as i32);
        if can_move_down {
            assert(mid1.contains(down));
            if mid2 != mid1 {
                lemma_contains_push(mid1, down, mid2.last());
            }
            if ns != mid2 {
                lemma_contains_push(mid2, down, ns.last());
            }
        }
        if left_ok {
            assert(mid2.contains((nx, cy)));
            if ns != mid2 {
                lemma_contains_push(mid2, (nx, cy), ns.last());
            }
        }
        assert forall|b: (i32, i32)| #[trigger] rules.step(ns[k], b) implies ns.contains(b) by {
            if b.0 == cx && b.1 == cy - 1 && rules.can_descend(cx as int, cy as int) {
                assert(b == down);
            } else if b.0 == cx - 1 && b.1 == cy {
                assert(left_ok);
            } else {
                assert(b.0 == cx + 1 && b.1 == cy);
                assert(right_ok);
            }
        }
        assert forall|i: int, b: (i32, i32)| 0 <= i < k + 1 && #[trigger] rules.step(ns[i], b) implies ns.contains(b) by {
            if i < k {
            }
        }
    }
}

/// Explores, breadth first, every position the piece can reach from `start`
/// under `rules_of(board, kind, rot, reserved, slot)`. Returns the lowest row at
/// which it can rest in column `target_x`, and the search tree whose paths lead
/// from `start` to each explored position.
pub fn explore(
    board: &GlobalBoard,
    kind: &TrominoKind,
    rot: usize,
    reserved: &[(i32, i32)],
    slot: Option<(i32, i32)>,
    start: (i32, i32),
    target_x: i32,
    min_dx_v: i32,
    max_dx_v: i32,
    max_dy_v: i32,
) -> (r: (Option<i32>, SearchTree))
    requires
        rules_of(*board, *kind, rot as nat, reserved@, slot).fits(start.0 as int, start.1 as int),
        start.1 <= i32::MAX - 3,
        min_dx_v == min_dx(kind.spec_cell_offsets(rot as nat)),
        max_dx_v == max_dx(kind.spec_cell_offsets(rot as nat)),
        max_dy_v == max_dy(kind.spec_cell_offsets(rot as nat)),
    ensures
        r.1.wf(),
        r.1.nodes@[0] == start,
        forall|i: int|
            0 <= i < r.1.nodes@.len() ==> {
                let p = #[trigger] tree_path(r.1.nodes@, r.1.parents@, i);
                &&& rules_of(*board, *kind, rot as nat, reserved@, slot).is_path(p)
                &&& p[0] == start
                &&& p.last() == r.1.nodes@[i]
            },
        r.0 == rules_of(*board, *kind, rot as nat, reserved@, slot).lowest_rest(start, target_x),
        r.0 matches Some(v) ==> r.1.nodes@.contains((target_x, v)),
        (r.1.nodes@, r.1.parents@) == bfs_tree(rules_of(*board, *kind, rot as nat, reserved@, slot), start),
{
    let ghost rules = rules_of(*board, *kind, rot as nat, reserved@, slot);
    let ghost offs = kind.spec_cell_offsets(rot as nat);
    let ghost ymax = start.1 as int;
    proof {
        lemma_offsets_shape(*kind, rot as nat);
        lemma_fits_bounds(board.grid(), *kind, rot as nat, reserved@, start.0 as int, start.1 as int);
    }
    let mut nodes: Vec<(i32, i32)> = Vec::new();
    let mut parents: Vec<usize> = Vec::new();
    nodes.push(start);
    parents.push(0);
    assert(nodes@ =~= seq![start]);
    assert(parents@ =~= seq![0usize]);
    let mut head: usize = 0;
    let mut lowest: Option<i32> = None;
    while head < nodes.len()
        invariant
            rules == rules_of(*board, *kind, rot as nat, reserved@, slot),
            offs == kind.spec_cell_offsets(rot as nat),
            offs.len() == 3,
            min_dx_v == 0,
            min_dx_v == min_dx(offs),
            max_dx_v == max_dx(offs),
            max_dy_v == max_dy(offs),
            0 <= max_dx_v <= 2,
            0 <= max_dy_v <= 2,
            ymax == start.1,
            0 <= ymax <= i32::MAX - 3,
            head <= nodes@.len(),
            tree_ok(rules, nodes@, parents@, start, ymax),
            closed_upto(rules, nodes@, head as int),
            lowest_ok(rules, nodes@, head as int, target_x, lowest),
            (nodes@, parents@) == bfs_after(rules, start, head as nat),
            nodes@.len() <= TOTAL_GRID_WIDTH * (ymax + 1),
        decreases TOTAL_GRID_WIDTH * (ymax + 1) - head,
    {
        proof {
            lemma_box_count(nodes@, ymax);
        }
        let (cx, cy) = nodes[head];
        let can_move_down = cy > 0 && can_place_check(board, kind, rot, cx, cy - 1, reserved);
        lowest = note_resting(
            lowest,
            cx,
            cy,
            can_move_down,
            target_x,
            Ghost(rules),
            Ghost(nodes@),
            Ghost(head as int),
        );
        let ghost before = nodes@;
        expand(
            board,
            kind,
            rot,
            reserved,
            slot,
            &mut nodes,
            &mut parents,
            head,
            can_move_down,
            min_dx_v,
            max_dx_v,
            max_dy_v,
            Ghost(rules),
            Ghost(start),
            Ghost(ymax),
        );
        proof {
            let k = head as int + 1;
            let ns = nodes@;
            assert forall|i: int| 0 <= i < k implies #[trigger] ns[i] == before[i] by {}
            match lowest {
                None => {},
                Some(v) => {
                    let i0 = choose|i: int|
                        0 <= i < k && #[trigger] before[i] == (target_x, v) && !rules.can_descend(
                            target_x as int,
                            v as int,
                        );
                    assert(ns[i0] == before[i0]);
                },
            }
            assert(lowest_ok(rules, ns, k, target_x, lowest));
            lemma_box_count(nodes@, ymax);
        }
        head += 1;
    }
    let tree = SearchTree { nodes, parents };
    proof {
        lemma_bfs_stable(rules, start, head as nat, (TOTAL_GRID_WIDTH * (ymax + 1)) as nat);
        let ns = tree.nodes@;
        let ps = tree.parents@;
        assert forall|i: int| 0 <= i < ns.len() implies {
            let p = #[trigger] tree_path(ns, ps, i);
            &&& rules.is_path(p)
            &&& p[0] == start
            &&& p.last() == ns[i]
        } by {
            lemma_tree_paths(rules, ns, ps, i);
        }
        // Any resting position reachable from the start is a node.
        assert forall|y: i32| #[trigger] rules.rests(start, target_x, y) implies exists|i: int|
            0 <= i < ns.len() && ns[i] == (target_x, y) by {
            let p = choose|p: Seq<(i32, i32)>| #[trigger] rules.is_path(p) && p[0] == start && p.last() == (
            target_x, y);
            assert(ns[0] == start);
            assert(ns.contains(p[0]));
            lemma_closed_paths(rules, ns, p, p.len() - 1);
        }
        match lowest {
            None => {
                assert forall|y: i32| !rules.lowest_rest_at(start, target_x, y) by {
                    if rules.rests(start, target_x, y) {
                        let i = choose|i: int| 0 <= i < ns.len() && ns[i] == (target_x, y);
                        assert(rules.can_descend(ns[i].0 as int, ns[i].1 as int));
                    }
                }
            },
            Some(v) => {
                let i = choose|i: int|
                    0 <= i < ns.len() && #[trigger] ns[i] == (target_x, v) && !rules.can_descend(
                        target_x as int,
                        v as int,
                    );
                let p = tree_path(ns, ps, i);
                assert(rules.is_path(p) && p[0] == start && p.last() == (target_x, v));
                assert(rules.reachable(start, (target_x, v)));
                assert(rules.rests(start, target_x, v));
                assert forall|y2: i32| #[trigger] rules.rests(start, target_x, y2) implies v <= y2 by {
                    let k = choose|k: int| 0 <= k < ns.len() && ns[k] == (target_x, y2);
                    assert(ns[k].0 == target_x);
                }
                assert(rules.lowest_rest_at(start, target_x, v));
                let w = choose|y: i32| rules.lowest_rest_at(start, target_x, y);
                assert(rules.lowest_rest_at(start, target_x, w));
                assert(w <= v && v <= w);
                assert(ns.contains((target_x, v)));
            },
        }
    }
    (lowest, tree)
}

} // verus!
