use vstd::prelude::*;
use crate::map::{Tile, open_cell};

verus! {

/// Whether two cells are next to each other, sideways or up and down.
pub open spec fn adjacent(a: (int, int), b: (int, int)) -> bool {
    ||| a.0 == b.0 && (a.1 - b.1 == 1 || b.1 - a.1 == 1)
    ||| a.1 == b.1 && (a.0 - b.0 == 1 || b.0 - a.0 == 1)
}

/// Whether the `i`-th step of the walk goes to a neighbouring cell.
pub open spec fn step_ok(p: Seq<(int, int)>, i: int) -> bool {
    adjacent(p[i], p[i + 1])
}

/// Whether `p` is a walk over open cells of the map, each step to a
/// neighbouring cell.
pub open spec fn walk_ok(map: Seq<Vec<Tile>>, p: Seq<(int, int)>) -> bool {
    &&& p.len() >= 1
    &&& forall|i: int| 0 <= i < p.len() ==> open_cell(map, (#[trigger] p[i]).0, p[i].1)
    &&& forall|i: int| 0 <= i < p.len() - 1 ==> #[trigger] step_ok(p, i)
}

/// Whether one can walk over open cells from `a` to `b`.
pub open spec fn connected(map: Seq<Vec<Tile>>, a: (int, int), b: (int, int)) -> bool {
    exists|p: Seq<(int, int)>| #[trigger] walk_ok(map, p) && p[0] == a && p.last() == b
}

/// An open cell is connected to itself.
pub proof fn lemma_connected_here(map: Seq<Vec<Tile>>, a: (int, int))
    requires
        open_cell(map, a.0, a.1),
    ensures
        connected(map, a, a),
{
    let p = seq![a];
    assert(walk_ok(map, p));
}

/// Two open neighbouring cells are connected.
pub proof fn lemma_connected_step(map: Seq<Vec<Tile>>, a: (int, int), b: (int, int))
    requires
        open_cell(map, a.0, a.1),
        open_cell(map, b.0, b.1),
        adjacent(a, b),
    ensures
        connected(map, a, b),
{
    let p = seq![a, b];
    assert(step_ok(p, 0));
    assert(walk_ok(map, p));
}

/// Walks join: from `a` to `b` and from `b` to `c` is from `a` to `c`.
pub proof fn lemma_connected_trans(map: Seq<Vec<Tile>>, a: (int, int), b: (int, int), c: (int, int))
    requires
        connected(map, a, b),
        connected(map, b, c),
    ensures
        connected(map, a, c),
{
    let p = choose|p: Seq<(int, int)>| #[trigger] walk_ok(map, p) && p[0] == a && p.last() == b;
    let q = choose|q: Seq<(int, int)>| #[trigger] walk_ok(map, q) && q[0] == b && q.last() == c;
    let r = p + q.drop_first();
    let n = p.len();
    assert forall|i: int| 0 <= i < r.len() implies open_cell(map, (#[trigger] r[i]).0, r[i].1) by {
        if i < n {
            assert(r[i] == p[i]);
        } else {
            assert(r[i] == q[i - n + 1]);
        }
    }
    assert forall|i: int| 0 <= i < r.len() - 1 implies #[trigger] step_ok(r, i) by {
        if i < n - 1 {
            assert(step_ok(p, i));
            assert(r[i] == p[i] && r[i + 1] == p[i + 1]);
        } else if i == n - 1 {
            assert(step_ok(q, 0));
            assert(r[i] == p[n - 1] && r[i + 1] == q[1]);
        } else {
            assert(step_ok(q, i - n + 1));
            assert(r[i] == q[i - n + 1] && r[i + 1] == q[i - n + 2]);
        }
    }
    assert(walk_ok(map, r));
    if q.len() == 1 {
        assert(r.last() == p.last());
    } else {
        assert(r.last() == q.last());
    }
}

/// Along a row of open cells one can walk from either end to the other.
pub proof fn lemma_connected_row(map: Seq<Vec<Tile>>, x1: int, x2: int, y: int)
    requires
        forall|x: int| (x1 <= x <= x2 || x2 <= x <= x1) ==> #[trigger] open_cell(map, x, y),
    ensures
        connected(map, (x1, y), (x2, y)),
    decreases if x1 <= x2 { x2 - x1 } else { x1 - x2 },
{
    if x1 == x2 {
        lemma_connected_here(map, (x1, y));
    } else {
        let x3 = if x1 < x2 { x2 - 1 } else { x2 + 1 };
        assert(open_cell(map, x3, y));
        assert(open_cell(map, x2, y));
        lemma_connected_row(map, x1, x3, y);
        lemma_connected_step(map, (x3, y), (x2, y));
        lemma_connected_trans(map, (x1, y), (x3, y), (x2, y));
    }
}

/// Along a column of open cells one can walk from either end to the other.
pub proof fn lemma_connected_column(map: Seq<Vec<Tile>>, x: int, y1: int, y2: int)
    requires
        forall|y: int| (y1 <= y <= y2 || y2 <= y <= y1) ==> #[trigger] open_cell(map, x, y),
    ensures
        connected(map, (x, y1), (x, y2)),
    decreases if y1 <= y2 { y2 - y1 } else { y1 - y2 },
{
    if y1 == y2 {
        lemma_connected_here(map, (x, y1));
    } else {
        let y3 = if y1 < y2 { y2 - 1 } else { y2 + 1 };
        assert(open_cell(map, x, y3));
        assert(open_cell(map, x, y2));
        lemma_connected_column(map, x, y1, y3);
        lemma_connected_step(map, (x, y3), (x, y2));
        lemma_connected_trans(map, (x, y1), (x, y3), (x, y2));
    }
}

} // verus!
