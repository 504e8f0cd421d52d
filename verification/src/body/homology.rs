//! The homology of the 1-skeleton of a point cloud: connected components
//! by breadth-first search, and the ranks that give Betti-1.

use std::collections::VecDeque;
use vstd::prelude::*;
use crate::body::topology::TopologicalSignature;
use crate::body::row_space::{gf2_rank, lemma_gf2_rank_is};
use crate::body::skeleton::{CellMatrix, dmatrix_cells, dmatrix_get, dmatrix_set, dmatrix_filled, is_grid};

verus! {

/// `u -> v` is an edge of the graph whose adjacency cells are `g`.
pub open spec fn has_edge(g: Seq<Seq<u8>>, u: int, v: int) -> bool {
    g[u][v] == 1
}

/// `p` is a walk in `g`: a non-empty sequence of vertices, each linked to
/// the next.
pub open spec fn is_walk(g: Seq<Seq<u8>>, p: Seq<int>) -> bool {
    &&& p.len() >= 1
    &&& forall|k: int| 0 <= k < p.len() ==> 0 <= #[trigger] p[k] < g.len()
    &&& forall|k: int| 0 <= k < p.len() - 1 ==> #[trigger] has_edge(g, p[k], p[k + 1])
}

/// `v` can be reached from `u` by a walk in `g`.
pub open spec fn connected(g: Seq<Seq<u8>>, u: int, v: int) -> bool {
    exists|p: Seq<int>| #[trigger] is_walk(g, p) && p[0] == u && p.last() == v
}

/// `u` is the least vertex of its connected component.
pub open spec fn is_root(g: Seq<Seq<u8>>, u: int) -> bool {
    forall|w: int| 0 <= w < u ==> !#[trigger] connected(g, w, u)
}

/// The number of component roots among the vertices below `k`.
pub open spec fn count_roots(g: Seq<Seq<u8>>, k: nat) -> nat
    decreases k,
{
    if k == 0 {
        0
    } else {
        count_roots(g, (k - 1) as nat) + if is_root(g, k - 1) {
            1nat
        } else {
            0nat
        }
    }
}

/// The number of connected components of the graph `g`.
pub open spec fn num_components(g: Seq<Seq<u8>>) -> nat {
    count_roots(g, g.len())
}

proof fn lemma_connected_self(g: Seq<Seq<u8>>, u: int)
    requires
        0 <= u < g.len(),
    ensures
        connected(g, u, u),
{
    let p = seq![u];
    assert(is_walk(g, p));
}

proof fn lemma_connected_extend(g: Seq<Seq<u8>>, u: int, w: int, v: int)
    requires
        connected(g, u, w),
        has_edge(g, w, v),
        0 <= v < g.len(),
    ensures
        connected(g, u, v),
{
    let p = choose|p: Seq<int>| #[trigger] is_walk(g, p) && p[0] == u && p.last() == w;
    let q = p.push(v);
    assert forall|k: int| 0 <= k < q.len() - 1 implies #[trigger] has_edge(g, q[k], q[k + 1]) by {
        if k < p.len() - 1 {
            assert(q[k] == p[k] && q[k + 1] == p[k + 1]);
        }
    }
    assert(is_walk(g, q));
}

proof fn lemma_connected_concat(g: Seq<Seq<u8>>, u: int, w: int, v: int)
    requires
        connected(g, u, w),
        connected(g, w, v),
    ensures
        connected(g, u, v),
{
    let p = choose|p: Seq<int>| #[trigger] is_walk(g, p) && p[0] == u && p.last() == w;
    let q = choose|q: Seq<int>| #[trigger] is_walk(g, q) && q[0] == w && q.last() == v;
    let r = p + q.drop_first();
    assert forall|k: int| 0 <= k < r.len() implies 0 <= #[trigger] r[k] < g.len() by {
        if k >= p.len() {
            assert(r[k] == q[k - p.len() + 1]);
        }
    }
    assert forall|k: int| 0 <= k < r.len() - 1 implies #[trigger] has_edge(g, r[k], r[k + 1]) by {
        if k < p.len() - 1 {
            assert(r[k] == p[k] && r[k + 1] == p[k + 1]);
        } else if k == p.len() - 1 {
            assert(r[k] == w && r[k + 1] == q[1]);
            assert(has_edge(g, q[0], q[1]));
        } else {
            assert(r[k] == q[k - p.len() + 1] && r[k + 1] == q[k - p.len() + 2]);
        }
    }
    if q.len() == 1 {
        assert(r =~= p);
    }
    assert(is_walk(g, r));
}

/// A set of vertices closed under the edges holds every vertex reachable
/// from its members.
proof fn lemma_closed_set_holds_reachable(g: Seq<Seq<u8>>, s: Seq<bool>, u: int, v: int)
    requires
        s.len() == g.len(),
        forall|a: int, b: int|
            0 <= a < g.len() && 0 <= b < g.len() && s[a] && #[trigger] has_edge(g, a, b) ==> s[b],
        0 <= u < g.len(),
        s[u],
        connected(g, u, v),
    ensures
        s[v],
{
    let p = choose|p: Seq<int>| #[trigger] is_walk(g, p) && p[0] == u && p.last() == v;
    lemma_walk_stays_in_closed_set(g, s, p, p.len() - 1);
}

proof fn lemma_walk_stays_in_closed_set(g: Seq<Seq<u8>>, s: Seq<bool>, p: Seq<int>, k: int)
    requires
        s.len() == g.len(),
        forall|a: int, b: int|
            0 <= a < g.len() && 0 <= b < g.len() && s[a] && #[trigger] has_edge(g, a, b) ==> s[b],
        is_walk(g, p),
        s[p[0]],
        0 <= k < p.len(),
    ensures
        s[p[k]],
    decreases k,
{
    if k > 0 {
        lemma_walk_stays_in_closed_set(g, s, p, k - 1);
        assert(has_edge(g, p[k - 1], p[k - 1 + 1]));
        assert(0 <= p[k - 1] < g.len() && 0 <= p[k] < g.len());
    }
}

/// The number of vertices not yet visited.
pub open spec fn count_unvisited(s: Seq<bool>) -> nat
    decreases s.len(),
{
    if s.len() == 0 {
        0
    } else {
        count_unvisited(s.drop_last()) + if s.last() {
            0nat
        } else {
            1nat
        }
    }
}

proof fn lemma_count_unvisited_mark(s: Seq<bool>, v: int)
    requires
        0 <= v < s.len(),
        !s[v],
    ensures
        count_unvisited(s.update(v, true)) + 1 == count_unvisited(s),
    decreases s.len(),
{
    let t = s.update(v, true);
    if v == s.len() - 1 {
        assert(t.drop_last() =~= s.drop_last());
    } else {
        assert(t.drop_last() =~= s.drop_last().update(v, true));
        lemma_count_unvisited_mark(s.drop_last(), v);
    }
}

/// The number of connected components of the graph with adjacency `adj`
/// (`n` vertices), by breadth-first search from each unvisited vertex.
pub fn count_connected_components(n: usize, adj: &CellMatrix) -> (count: usize)
    requires
        is_grid(dmatrix_cells(*adj), n as nat, n as nat),
    ensures
        count == num_components(dmatrix_cells(*adj)),
        count <= n,
{
    let ghost g = dmatrix_cells(*adj);
    let mut visited: Vec<bool> = Vec::new();
    let mut t: usize = 0;
    while t < n
        invariant
            t <= n,
            visited@.len() == t,
            forall|k: int| 0 <= k < t ==> !#[trigger] visited@[k],
        decreases n - t,
    {
        visited.push(false);
        t = t + 1;
    }
    let mut count: usize = 0;
    let mut i: usize = 0;
    while i < n
        invariant
            g == dmatrix_cells(*adj),
            is_grid(g, n as nat, n as nat),
            i <= n,
            visited@.len() == n,
            count == count_roots(g, i as nat),
            count <= i,
            forall|v: int|
                0 <= v < n ==> (#[trigger] visited@[v] <==> exists|u: int|
                    0 <= u < i && #[trigger] connected(g, u, v)),
            forall|a: int, b: int|
                0 <= a < n && 0 <= b < n && visited@[a] && #[trigger] has_edge(g, a, b)
                    ==> visited@[b],
        decreases n - i,
    {
        if !visited[i] {
            proof {
                assert forall|w: int| 0 <= w < i implies !#[trigger] connected(g, w, i as int) by {
                    if connected(g, w, i as int) {
                        assert(visited@[i as int]);
                    }
                }
                assert(is_root(g, i as int));
            }
            count = count + 1;
            let ghost old_visited = visited@;
            proof {
                lemma_connected_self(g, i as int);
            }
            let mut queue: VecDeque<usize> = VecDeque::new();
            visited.set(i, true);
            queue.push_back(i);
            assert(queue@[0] == i);
            assert(queue@.contains(i));
            while queue.len() > 0
                invariant
                    g == dmatrix_cells(*adj),
                    is_grid(g, n as nat, n as nat),
                    i < n,
                    visited@.len() == n,
                    visited@[i as int],
                    forall|v: int| 0 <= v < n && old_visited[v] ==> #[trigger] visited@[v],
                    forall|v: int|
                        0 <= v < n && #[trigger] visited@[v] ==> old_visited[v] || connected(
                            g,
                            i as int,
                            v,
                        ),
                    forall|k: int|
                        0 <= k < queue@.len() ==> #[trigger] queue@[k] < n && visited@[queue@[k] as int]
                            && connected(g, i as int, queue@[k] as int),
                    forall|a: int, b: int|
                        0 <= a < n && 0 <= b < n && visited@[a] && !queue@.contains(a as usize)
                            && #[trigger] has_edge(g, a, b) ==> visited@[b],
                decreases 2 * count_unvisited(visited@) + queue@.len(),
            {
                let ghost q_before = queue@;
                let u = queue.pop_front().unwrap();
                proof {
                    assert(q_before[0] == u);
                    assert forall|a: usize| #[trigger] q_before.contains(a) && a != u implies queue@.contains(
                        a,
                    ) by {
                        let k = choose|k: int| 0 <= k < q_before.len() && q_before[k] == a;
                        assert(k != 0);
                        assert(queue@[k - 1] == a);
                    }
                }
                assert(connected(g, i as int, u as int));
                let ghost measure = 2 * count_unvisited(visited@) + queue@.len();
                let mut v: usize = 0;
                while v < n
                    invariant
                        g == dmatrix_cells(*adj),
                        is_grid(g, n as nat, n as nat),
                        i < n,
                        u < n,
                        v <= n,
                        visited@.len() == n,
                        visited@[i as int],
                        visited@[u as int],
                        connected(g, i as int, u as int),
                        forall|v2: int| 0 <= v2 < n && old_visited[v2] ==> #[trigger] visited@[v2],
                        forall|v2: int|
                            0 <= v2 < n && #[trigger] visited@[v2] ==> old_visited[v2] || connected(
                                g,
                                i as int,
                                v2,
                            ),
                        forall|k: int|
                            0 <= k < queue@.len() ==> #[trigger] queue@[k] < n && visited@[queue@[k] as int]
                                && connected(g, i as int, queue@[k] as int),
                        forall|a: int, b: int|
                            0 <= a < n && 0 <= b < n && visited@[a] && a != u
                                && !queue@.contains(a as usize) && #[trigger] has_edge(g, a, b)
                                ==> visited@[b],
                        forall|b: int| 0 <= b < v && #[trigger] has_edge(g, u as int, b) ==> visited@[b],
                        2 * count_unvisited(visited@) + queue@.len() <= measure,
                    decreases n - v,
                {
                    assert(v < dmatrix_cells(*adj)[u as int].len());
                    if dmatrix_get(adj, u, v) == 1 && !visited[v] {
                        proof {
                            lemma_connected_extend(g, i as int, u as int, v as int);
                            lemma_count_unvisited_mark(visited@, v as int);
                        }
                        let ghost q_prev = queue@;
                        visited.set(v, true);
                        queue.push_back(v);
                        proof {
                            assert(queue@[q_prev.len() as int] == v);
                            assert forall|a: usize| #[trigger] q_prev.contains(a) implies queue@.contains(a) by {
                                let k = choose|k: int| 0 <= k < q_prev.len() && q_prev[k] == a;
                                assert(queue@[k] == a);
                            }
                            assert(queue@.contains(v));
                        }
                    }
                    v = v + 1;
                }
            }
            proof {
                assert forall|v: int|
                    0 <= v < n implies (#[trigger] visited@[v] <==> exists|u: int|
                        0 <= u < i + 1 && #[trigger] connected(g, u, v)) by {
                    if visited@[v] {
                        if old_visited[v] {
                            let u = choose|u: int| 0 <= u < i && #[trigger] connected(g, u, v);
                            assert(connected(g, u, v));
                        } else {
                            assert(connected(g, i as int, v));
                        }
                    }
                    if exists|u: int| 0 <= u < i + 1 && #[trigger] connected(g, u, v) {
                        let u = choose|u: int| 0 <= u < i + 1 && #[trigger] connected(g, u, v);
                        if u < i {
                            assert(old_visited[v]);
                        } else {
                            lemma_closed_set_holds_reachable(g, visited@, i as int, v);
                        }
                    }
                }
            }
        } else {
            proof {
                let u0 = choose|u: int| 0 <= u < i && #[trigger] connected(g, u, i as int);
                assert(connected(g, u0, i as int));
                assert(!is_root(g, i as int));
                assert forall|v: int|
                    0 <= v < n implies (#[trigger] visited@[v] <==> exists|u: int|
                        0 <= u < i + 1 && #[trigger] connected(g, u, v)) by {
                    if exists|u: int| 0 <= u < i + 1 && #[trigger] connected(g, u, v) {
                        let u = choose|u: int| 0 <= u < i + 1 && #[trigger] connected(g, u, v);
                        if u == i {
                            lemma_connected_concat(g, u0, i as int, v);
                        }
                    }
                }
            }
        }
        i = i + 1;
    }
    count
}

} // verus!

verus! {

/// An elementary row operation over GF(2).
pub enum RowOp {
    /// Exchange rows `i` and `j`.
    Swap(int, int),
    /// Add (XOR) row `source` into row `target`.
    AddRow(int, int),
}

/// Addition in GF(2) of two binary cells.
pub open spec fn xor_cell(a: u8, b: u8) -> u8 {
    if a == b {
        0
    } else {
        1
    }
}

pub open spec fn apply_row_op(m: Seq<Seq<u8>>, op: RowOp) -> Seq<Seq<u8>> {
    match op {
        RowOp::Swap(i, j) => m.update(i, m[j]).update(j, m[i]),
        RowOp::AddRow(t, s) => m.update(
            t,
            Seq::new(m[t].len(), |c: int| xor_cell(m[t][c], m[s][c])),
        ),
    }
}

pub open spec fn apply_row_ops(m: Seq<Seq<u8>>, ops: Seq<RowOp>) -> Seq<Seq<u8>>
    decreases ops.len(),
{
    if ops.len() == 0 {
        m
    } else {
        apply_row_op(apply_row_ops(m, ops.drop_last()), ops.last())
    }
}

/// An operation on rows below `rows`; a row is never added to itself.
pub open spec fn valid_row_op(op: RowOp, rows: nat) -> bool {
    match op {
        RowOp::Swap(i, j) => 0 <= i < rows && 0 <= j < rows,
        RowOp::AddRow(t, s) => 0 <= t < rows && 0 <= s < rows && t != s,
    }
}

pub open spec fn valid_row_ops(ops: Seq<RowOp>, rows: nat) -> bool {
    forall|k: int| 0 <= k < ops.len() ==> valid_row_op(#[trigger] ops[k], rows)
}

/// Every cell is 0 or 1.
pub open spec fn is_binary(m: Seq<Seq<u8>>) -> bool {
    forall|i: int, j: int| 0 <= i < m.len() && 0 <= j < m[i].len() ==> #[trigger] m[i][j] <= 1
}

/// `m` is in row-echelon form with `r` non-zero rows, whose leading ones
/// stand in the strictly increasing columns `pc`; the rows from `r` on are
/// zero.
pub open spec fn is_echelon(m: Seq<Seq<u8>>, rows: nat, cols: nat, r: nat, pc: Seq<int>) -> bool {
    &&& r <= rows
    &&& pc.len() == r
    &&& forall|i: int| 0 <= i < r ==> 0 <= #[trigger] pc[i] < cols
    &&& forall|i: int| 0 <= i < r ==> #[trigger] m[i][pc[i]] == 1
    &&& forall|i: int, c: int| 0 <= i < r && 0 <= c < pc[i] ==> #[trigger] m[i][c] == 0
    &&& forall|i: int, j: int| 0 <= i < j < r ==> #[trigger] pc[i] < #[trigger] pc[j]
    &&& forall|i: int, c: int| r <= i < rows && 0 <= c < cols ==> #[trigger] m[i][c] == 0
}

/// `r` is the rank over GF(2) of the `rows` x `cols` matrix `m`: some
/// sequence of elementary row operations brings `m` to a row-echelon form
/// with `r` non-zero rows.
pub open spec fn is_gf2_rank(m: Seq<Seq<u8>>, rows: nat, cols: nat, r: nat) -> bool {
    exists|ops: Seq<RowOp>, pc: Seq<int>|
        valid_row_ops(ops, rows) && #[trigger] is_echelon(apply_row_ops(m, ops), rows, cols, r, pc)
}

proof fn lemma_xor01(a: u8, b: u8)
    requires
        a <= 1,
        b <= 1,
    ensures
        a ^ b == xor_cell(a, b),
{
    assert(a <= 1 && b <= 1 ==> a ^ b == (if a == b { 0u8 } else { 1u8 })) by (bit_vector);
}

proof fn lemma_push_op(m0: Seq<Seq<u8>>, ops: Seq<RowOp>, op: RowOp, rows: nat)
    requires
        valid_row_ops(ops, rows),
        valid_row_op(op, rows),
    ensures
        valid_row_ops(ops.push(op), rows),
        apply_row_ops(m0, ops.push(op)) == apply_row_op(apply_row_ops(m0, ops), op),
{
    assert(ops.push(op).drop_last() =~= ops);
    assert forall|k: int| 0 <= k < ops.push(op).len() implies valid_row_op(
        #[trigger] ops.push(op)[k],
        rows,
    ) by {
        if k < ops.len() {
            assert(ops.push(op)[k] == ops[k]);
        }
    }
}

/// Exchanges rows `r1` and `r2`, cell by cell.
fn swap_rows(m: &mut CellMatrix, rows: usize, cols: usize, r1: usize, r2: usize)
    requires
        is_grid(dmatrix_cells(*old(m)), rows as nat, cols as nat),
        r1 < rows,
        r2 < rows,
    ensures
        dmatrix_cells(*final(m)) == apply_row_op(dmatrix_cells(*old(m)), RowOp::Swap(r1 as int, r2 as int)),
{
    let ghost m0 = dmatrix_cells(*m);
    let mut c: usize = 0;
    while c < cols
        invariant
            is_grid(m0, rows as nat, cols as nat),
            r1 < rows,
            r2 < rows,
            c <= cols,
            dmatrix_cells(*m).len() == rows,
            forall|i: int| 0 <= i < rows ==> (#[trigger] dmatrix_cells(*m)[i]).len() == cols,
            forall|i: int, j: int|
                0 <= i < rows && 0 <= j < cols ==> #[trigger] dmatrix_cells(*m)[i][j] == if i
                    == r1 && j < c {
                    m0[r2 as int][j]
                } else if i == r2 && j < c {
                    m0[r1 as int][j]
                } else {
                    m0[i][j]
                },
        decreases cols - c,
    {
        let temp = dmatrix_get(m, r1, c);
        let other = dmatrix_get(m, r2, c);
        dmatrix_set(m, r1, c, other);
        dmatrix_set(m, r2, c, temp);
        c = c + 1;
    }
    let ghost want = apply_row_op(m0, RowOp::Swap(r1 as int, r2 as int));
    assert forall|i: int| 0 <= i < rows implies #[trigger] dmatrix_cells(*m)[i] =~= want[i] by {
        assert(want[i].len() == cols);
    }
    assert(dmatrix_cells(*m) =~= want);
}

/// Adds row `source` into row `target` from column `from_col` on; the
/// cells of `source` before `from_col` are zero, so the whole row is
/// added.
fn add_row_from(m: &mut CellMatrix, rows: usize, cols: usize, target: usize, source: usize, from_col: usize)
    requires
        is_grid(dmatrix_cells(*old(m)), rows as nat, cols as nat),
        is_binary(dmatrix_cells(*old(m))),
        target < rows,
        source < rows,
        target != source,
        from_col <= cols,
        forall|c: int| 0 <= c < from_col ==> #[trigger] dmatrix_cells(*old(m))[source as int][c] == 0,
    ensures
        dmatrix_cells(*final(m)) == apply_row_op(
            dmatrix_cells(*old(m)),
            RowOp::AddRow(target as int, source as int),
        ),
{
    let ghost m0 = dmatrix_cells(*m);
    let mut c: usize = from_col;
    while c < cols
        invariant
            is_grid(m0, rows as nat, cols as nat),
            is_binary(m0),
            target < rows,
            source < rows,
            target != source,
            from_col <= c <= cols,
            dmatrix_cells(*m).len() == rows,
            forall|i: int| 0 <= i < rows ==> (#[trigger] dmatrix_cells(*m)[i]).len() == cols,
            forall|i: int, j: int|
                0 <= i < rows && 0 <= j < cols ==> #[trigger] dmatrix_cells(*m)[i][j] == if i
                    == target && from_col <= j < c {
                    xor_cell(m0[i][j], m0[source as int][j])
                } else {
                    m0[i][j]
                },
        decreases cols - c,
    {
        let x = dmatrix_get(m, target, c);
        let y = dmatrix_get(m, source, c);
        proof {
            assert(x == m0[target as int][c as int] && y == m0[source as int][c as int]);
            lemma_xor01(x, y);
        }
        dmatrix_set(m, target, c, x ^ y);
        c = c + 1;
    }
    let ghost want = apply_row_op(m0, RowOp::AddRow(target as int, source as int));
    assert forall|i: int| 0 <= i < rows implies #[trigger] dmatrix_cells(*m)[i] =~= want[i] by {
        if i == target {
            assert forall|j: int| 0 <= j < cols implies #[trigger] dmatrix_cells(*m)[i][j] == want[i][j] by {
                if j < from_col {
                    assert(m0[source as int][j] == 0);
                    assert(m0[i][j] <= 1);
                }
            }
        }
    }
    assert(dmatrix_cells(*m) =~= want);
}

/// The first row from `start` on with a one in column `col`.
fn find_pivot(m: &CellMatrix, rows: usize, cols: usize, start: usize, col: usize) -> (p: Option<usize>)
    requires
        is_grid(dmatrix_cells(*m), rows as nat, cols as nat),
        col < cols,
        start <= rows,
    ensures
        match p {
            Some(r) => start <= r < rows && dmatrix_cells(*m)[r as int][col as int] == 1
                && forall|r2: int| start <= r2 < r ==> #[trigger] dmatrix_cells(*m)[r2][col as int] != 1,
            None => forall|r2: int| start <= r2 < rows ==> #[trigger] dmatrix_cells(*m)[r2][col as int] != 1,
        },
{
    let mut r: usize = start;
    while r < rows
        invariant
            is_grid(dmatrix_cells(*m), rows as nat, cols as nat),
            col < cols,
            start <= r <= rows,
            forall|r2: int| start <= r2 < r ==> #[trigger] dmatrix_cells(*m)[r2][col as int] != 1,
        decreases rows - r,
    {
        if dmatrix_get(m, r, col) == 1 {
            return Some(r);
        }
        r = r + 1;
    }
    None
}

} // verus!

verus! {

/// The rank over GF(2) of a binary `rows` x `cols` matrix, by Gaussian
/// elimination in place (row exchanges and row additions); the matrix is
/// left in row-echelon form.
pub fn compute_rank_z2(mat: &mut CellMatrix, rows: usize, cols: usize) -> (rank: usize)
    requires
        is_grid(dmatrix_cells(*old(mat)), rows as nat, cols as nat),
        is_binary(dmatrix_cells(*old(mat))),
    ensures
        rank <= rows,
        rank <= cols,
        is_grid(dmatrix_cells(*final(mat)), rows as nat, cols as nat),
        is_binary(dmatrix_cells(*final(mat))),
        exists|ops: Seq<RowOp>|
            valid_row_ops(ops, rows as nat) && #[trigger] apply_row_ops(dmatrix_cells(*old(mat)), ops)
                == dmatrix_cells(*final(mat)),
        exists|pc: Seq<int>| #[trigger] is_echelon(dmatrix_cells(*final(mat)), rows as nat, cols as nat, rank as nat, pc),
        is_gf2_rank(dmatrix_cells(*old(mat)), rows as nat, cols as nat, rank as nat),
        rank == gf2_rank(dmatrix_cells(*old(mat)), rows as nat, cols as nat),
{
    let ghost m0 = dmatrix_cells(*mat);
    let ghost mut ops: Seq<RowOp> = Seq::empty();
    let ghost mut pc: Seq<int> = Seq::empty();
    let mut pivot_row: usize = 0;
    let mut col: usize = 0;
    while col < cols
        invariant_except_break
            pivot_row <= col,
        invariant
            col <= cols,
            pivot_row <= rows,
            is_grid(dmatrix_cells(*mat), rows as nat, cols as nat),
            is_binary(dmatrix_cells(*mat)),
            valid_row_ops(ops, rows as nat),
            apply_row_ops(m0, ops) == dmatrix_cells(*mat),
            pc.len() == pivot_row,
            forall|i: int| 0 <= i < pivot_row ==> 0 <= #[trigger] pc[i] < col,
            forall|i: int| 0 <= i < pivot_row ==> #[trigger] dmatrix_cells(*mat)[i][pc[i]] == 1,
            forall|i: int, c: int|
                0 <= i < pivot_row && 0 <= c < pc[i] ==> #[trigger] dmatrix_cells(*mat)[i][c] == 0,
            forall|i: int, j: int| 0 <= i < j < pivot_row ==> #[trigger] pc[i] < #[trigger] pc[j],
            forall|i: int, c: int|
                pivot_row <= i < rows && 0 <= c < col ==> #[trigger] dmatrix_cells(*mat)[i][c] == 0,
        ensures
            pivot_row <= rows,
            pivot_row <= cols,
            is_grid(dmatrix_cells(*mat), rows as nat, cols as nat),
            is_binary(dmatrix_cells(*mat)),
            valid_row_ops(ops, rows as nat),
            apply_row_ops(m0, ops) == dmatrix_cells(*mat),
            is_echelon(dmatrix_cells(*mat), rows as nat, cols as nat, pivot_row as nat, pc),
        decreases cols - col,
    {
        if pivot_row >= rows {
            break;
        }
        let pivot = find_pivot(mat, rows, cols, pivot_row, col);
        match pivot {
            Some(r) => {
                if r != pivot_row {
                    let ghost before = dmatrix_cells(*mat);
                    swap_rows(mat, rows, cols, r, pivot_row);
                    proof {
                        lemma_push_op(m0, ops, RowOp::Swap(r as int, pivot_row as int), rows as nat);
                        ops = ops.push(RowOp::Swap(r as int, pivot_row as int));
                        let now = dmatrix_cells(*mat);
                        assert forall|i: int, j: int|
                            0 <= i < now.len() && 0 <= j < now[i].len() implies #[trigger] now[i][j] <= 1 by {
                            if i == r {
                                assert(now[i][j] == before[pivot_row as int][j]);
                            } else if i == pivot_row {
                                assert(now[i][j] == before[r as int][j]);
                            } else {
                                assert(now[i][j] == before[i][j]);
                            }
                        }
                    }
                }
                // The pivot row now leads with a one at `col`.
                let mut i: usize = pivot_row + 1;
                while i < rows
                    invariant
                        col < cols,
                        pivot_row < rows,
                        pivot_row <= col,
                        pivot_row + 1 <= i <= rows,
                        is_grid(dmatrix_cells(*mat), rows as nat, cols as nat),
                        is_binary(dmatrix_cells(*mat)),
                        valid_row_ops(ops, rows as nat),
                        apply_row_ops(m0, ops) == dmatrix_cells(*mat),
                        pc.len() == pivot_row,
                        forall|i2: int| 0 <= i2 < pivot_row ==> 0 <= #[trigger] pc[i2] < col,
                        forall|i2: int| 0 <= i2 < pivot_row ==> #[trigger] dmatrix_cells(*mat)[i2][pc[i2]] == 1,
                        forall|i2: int, c: int|
                            0 <= i2 < pivot_row && 0 <= c < pc[i2] ==> #[trigger] dmatrix_cells(*mat)[i2][c] == 0,
                        forall|i2: int, j: int| 0 <= i2 < j < pivot_row ==> #[trigger] pc[i2] < #[trigger] pc[j],
                        forall|i2: int, c: int|
                            pivot_row <= i2 < rows && 0 <= c < col ==> #[trigger] dmatrix_cells(*mat)[i2][c] == 0,
                        dmatrix_cells(*mat)[pivot_row as int][col as int] == 1,
                        forall|i2: int| pivot_row < i2 < i ==> #[trigger] dmatrix_cells(*mat)[i2][col as int] == 0,
                    decreases rows - i,
                {
                    if dmatrix_get(mat, i, col) == 1 {
                        let ghost before = dmatrix_cells(*mat);
                        add_row_from(mat, rows, cols, i, pivot_row, col);
                        proof {
                            lemma_push_op(m0, ops, RowOp::AddRow(i as int, pivot_row as int), rows as nat);
                            ops = ops.push(RowOp::AddRow(i as int, pivot_row as int));
                            let now = dmatrix_cells(*mat);
                            assert forall|i2: int, j: int|
                                0 <= i2 < now.len() && 0 <= j < now[i2].len() implies #[trigger] now[i2][j] <= 1 by {
                                if i2 == i {
                                    assert(now[i2][j] == xor_cell(before[i2][j], before[pivot_row as int][j]));
                                } else {
                                    assert(now[i2][j] == before[i2][j]);
                                }
                            }
                            assert forall|i2: int, c: int|
                                pivot_row <= i2 < rows && 0 <= c < col implies #[trigger] now[i2][c] == 0 by {
                                if i2 == i {
                                    assert(before[i2][c] == 0 && before[pivot_row as int][c] == 0);
                                } else {
                                    assert(now[i2][c] == before[i2][c]);
                                }
                            }
                            assert(now[i as int][col as int] == xor_cell(before[i as int][col as int], before[pivot_row as int][col as int]));
                            assert forall|i2: int| 0 <= i2 < pivot_row implies #[trigger] now[i2][pc[i2]] == 1 by {
                                assert(now[i2] == before[i2]);
                            }
                            assert forall|i2: int, c: int|
                                0 <= i2 < pivot_row && 0 <= c < pc[i2] implies #[trigger] now[i2][c] == 0 by {
                                assert(now[i2] == before[i2]);
                            }
                            assert forall|i2: int| pivot_row < i2 < i + 1 implies #[trigger] now[i2][col as int] == 0 by {
                                if i2 != i {
                                    assert(now[i2] == before[i2]);
                                }
                            }
                        }
                    } else {
                        proof {
                            assert(dmatrix_cells(*mat)[i as int][col as int] <= 1);
                        }
                    }
                    i = i + 1;
                }
                proof {
                    pc = pc.push(col as int);
                    let now = dmatrix_cells(*mat);
                    assert forall|i2: int, c: int|
                        pivot_row + 1 <= i2 < rows && 0 <= c < col + 1 implies #[trigger] now[i2][c] == 0 by {
                        if c == col {
                            assert(now[i2][col as int] == 0);
                        }
                    }
                }
                pivot_row = pivot_row + 1;
            },
            None => {
                proof {
                    let now = dmatrix_cells(*mat);
                    assert forall|i2: int, c: int|
                        pivot_row <= i2 < rows && 0 <= c < col + 1 implies #[trigger] now[i2][c] == 0 by {
                        if c == col {
                            assert(now[i2][col as int] != 1);
                            assert(now[i2][col as int] <= 1);
                        }
                    }
                }
            },
        }
        col = col + 1;
    }
    proof {
        assert(is_echelon(dmatrix_cells(*mat), rows as nat, cols as nat, pivot_row as nat, pc));
        lemma_gf2_rank_is(m0, rows as nat, cols as nat, pivot_row as nat);
    }
    pivot_row
}

} // verus!

verus! {

/// `a - b`, or zero where `b` exceeds `a`.
pub open spec fn saturating_diff(a: int, b: int) -> int {
    if a >= b {
        a - b
    } else {
        0
    }
}

/// `close[i][j]` (for `i < j`) says that points `i` and `j` are nearer
/// than the scale of the complex; the lower triangle is not read.
pub open spec fn is_square(close: Seq<Seq<bool>>) -> bool {
    forall|i: int| 0 <= i < close.len() ==> (#[trigger] close[i]).len() == close.len()
}

/// Points `u` and `v` are joined by an edge of the 1-skeleton.
pub open spec fn linked(close: Seq<Seq<bool>>, u: int, v: int) -> bool {
    (u < v && close[u][v]) || (v < u && close[v][u])
}

/// The adjacency cells of the 1-skeleton.
pub open spec fn skeleton_graph(close: Seq<Seq<bool>>) -> Seq<Seq<u8>> {
    Seq::new(
        close.len(),
        |u: int| Seq::new(close.len(), |v: int| if linked(close, u, v) { 1u8 } else { 0u8 }),
    )
}

/// The edges (i, j2), i < j2 < j, of row i, in order.
pub open spec fn row_edges(close: Seq<Seq<bool>>, i: int, j: int) -> Seq<(usize, usize)>
    decreases j - i,
{
    if j <= i + 1 {
        seq![]
    } else {
        row_edges(close, i, j - 1) + if close[i][j - 1] {
            seq![(i as usize, (j - 1) as usize)]
        } else {
            seq![]
        }
    }
}

/// The edges of the rows below `i`, in lexicographic order.
pub open spec fn edges_below(close: Seq<Seq<bool>>, i: int) -> Seq<(usize, usize)>
    decreases i,
{
    if i <= 0 {
        seq![]
    } else {
        edges_below(close, i - 1) + row_edges(close, i - 1, close.len() as int)
    }
}

/// The edges of the 1-skeleton, in lexicographic order.
pub open spec fn skeleton_edges(close: Seq<Seq<bool>>) -> Seq<(usize, usize)> {
    edges_below(close, close.len() as int)
}

/// The triangles (i, j, k2), j < k2 < k, closing the edge (i, j).
pub open spec fn tri_row(close: Seq<Seq<bool>>, i: int, j: int, k: int) -> Seq<(usize, usize, usize)>
    decreases k - j,
{
    if k <= j + 1 {
        seq![]
    } else {
        tri_row(close, i, j, k - 1) + if linked(close, j, k - 1) && linked(close, k - 1, i) {
            seq![(i as usize, j as usize, (k - 1) as usize)]
        } else {
            seq![]
        }
    }
}

/// The triangles with least vertex `i` and middle vertex below `j`.
pub open spec fn tri_pairs(close: Seq<Seq<bool>>, i: int, j: int) -> Seq<(usize, usize, usize)>
    decreases j - i,
{
    if j <= i + 1 {
        seq![]
    } else {
        tri_pairs(close, i, j - 1) + if linked(close, i, j - 1) {
            tri_row(close, i, j - 1, close.len() as int)
        } else {
            seq![]
        }
    }
}

/// The triangles with least vertex below `i`.
pub open spec fn tris_below(close: Seq<Seq<bool>>, i: int) -> Seq<(usize, usize, usize)>
    decreases i,
{
    if i <= 0 {
        seq![]
    } else {
        tris_below(close, i - 1) + tri_pairs(close, i - 1, close.len() as int)
    }
}

/// The 2-simplices of the Vietoris-Rips complex (the triangles of the
/// 1-skeleton), in lexicographic order.
pub open spec fn skeleton_triangles(close: Seq<Seq<bool>>) -> Seq<(usize, usize, usize)> {
    tris_below(close, close.len() as int)
}

/// Edge `e` is one of the three sides of triangle `t`.
pub open spec fn is_side(e: (usize, usize), t: (usize, usize, usize)) -> bool {
    e == (t.0, t.1) || e == (t.1, t.2) || e == (t.0, t.2)
}

/// The boundary operator d2 over GF(2): an edges x triangles matrix with a
/// one where the edge is a side of the triangle.
pub open spec fn boundary_cells(
    edges: Seq<(usize, usize)>,
    tris: Seq<(usize, usize, usize)>,
) -> Seq<Seq<u8>> {
    Seq::new(
        edges.len(),
        |e: int| Seq::new(tris.len(), |t: int| if is_side(edges[e], tris[t]) { 1u8 } else { 0u8 }),
    )
}

/// The cycle rank |E| - |V| + b0 of the graph (0 when negative).
pub open spec fn cycle_rank(num_edges: int, num_vertices: int, b0: int) -> int {
    if num_edges + b0 >= num_vertices {
        num_edges - num_vertices + b0
    } else {
        0
    }
}

/// Pair `(u, v)`, `u < v`, comes before `(i, j)` in the row-major scan.
pub open spec fn scanned(u: int, v: int, i: int, j: int) -> bool {
    u < i || (u == i && v < j)
}

/// Builds the adjacency matrix and the edge list of the 1-skeleton.
fn build_skeleton(close: &Vec<Vec<bool>>) -> (res: (CellMatrix, Vec<(usize, usize)>))
    requires
        is_square(close.deep_view()),
        close@.len() * close@.len() <= usize::MAX,
    ensures
        dmatrix_cells(res.0) == skeleton_graph(close.deep_view()),
        res.1@ == skeleton_edges(close.deep_view()),
{
    let ghost cl = close.deep_view();
    let n = close.len();
    let mut adj = dmatrix_filled(n, n, 0);
    let mut edges: Vec<(usize, usize)> = Vec::new();
    let mut i: usize = 0;
    while i < n
        invariant
            cl == close.deep_view(),
            n == cl.len(),
            is_square(cl),
            i <= n,
            is_grid(dmatrix_cells(adj), n as nat, n as nat),
            forall|u: int, v: int|
                0 <= u < n && 0 <= v < n ==> #[trigger] dmatrix_cells(adj)[u][v] == if linked(cl, u, v)
                    && (scanned(u, v, i as int, 0) || scanned(v, u, i as int, 0)) {
                    1u8
                } else {
                    0u8
                },
            edges@ == edges_below(cl, i as int),
        decreases n - i,
    {
        let mut j: usize = i + 1;
        assert(row_edges(cl, i as int, j as int) =~= seq![]);
        assert(edges_below(cl, i as int) + row_edges(cl, i as int, j as int) =~= edges_below(cl, i as int));
        while j < n
            invariant
                cl == close.deep_view(),
                n == cl.len(),
                is_square(cl),
                i < n,
                i + 1 <= j <= n,
                is_grid(dmatrix_cells(adj), n as nat, n as nat),
                forall|u: int, v: int|
                    0 <= u < n && 0 <= v < n ==> #[trigger] dmatrix_cells(adj)[u][v] == if linked(
                        cl,
                        u,
                        v,
                    ) && (scanned(u, v, i as int, j as int) || scanned(v, u, i as int, j as int)) {
                        1u8
                    } else {
                        0u8
                    },
                edges@ == edges_below(cl, i as int) + row_edges(cl, i as int, j as int),
            decreases n - j,
        {
            assert(close@[i as int]@ == cl[i as int]);
            if close[i][j] {
                dmatrix_set(&mut adj, i, j, 1);
                dmatrix_set(&mut adj, j, i, 1);
                edges.push((i, j));
            }
            proof {
                assert(row_edges(cl, i as int, j + 1) == row_edges(cl, i as int, j as int) + if cl[i as int][j as int] {
                    seq![(i as usize, j as usize)]
                } else {
                    seq![]
                });
            }
            j = j + 1;
        }
        proof {
            assert(edges_below(cl, i + 1) == edges_below(cl, i as int) + row_edges(cl, i as int, n as int));
        }
        i = i + 1;
    }
    proof {
        let g = skeleton_graph(cl);
        assert forall|u: int| 0 <= u < n implies #[trigger] dmatrix_cells(adj)[u] =~= g[u] by {
        }
        assert(dmatrix_cells(adj) =~= g);
    }
    (adj, edges)
}

} // verus!

verus! {

/// Lists the triangles of the 1-skeleton whose adjacency is `adj`.
fn list_triangles(close: Ghost<Seq<Seq<bool>>>, adj: &CellMatrix, n: usize) -> (tris: Vec<(usize, usize, usize)>)
    requires
        is_square(close@),
        close@.len() == n,
        dmatrix_cells(*adj) == skeleton_graph(close@),
    ensures
        tris@ == skeleton_triangles(close@),
{
    let ghost cl = close@;
    let mut tris: Vec<(usize, usize, usize)> = Vec::new();
    let mut i: usize = 0;
    while i < n
        invariant
            cl == close@,
            is_square(cl),
            cl.len() == n,
            dmatrix_cells(*adj) == skeleton_graph(cl),
            i <= n,
            tris@ == tris_below(cl, i as int),
        decreases n - i,
    {
        let mut j: usize = i + 1;
        assert(tris_below(cl, i as int) + tri_pairs(cl, i as int, j as int) =~= tris_below(cl, i as int));
        while j < n
            invariant
                cl == close@,
                is_square(cl),
                cl.len() == n,
                dmatrix_cells(*adj) == skeleton_graph(cl),
                i < n,
                i + 1 <= j <= n,
                tris@ == tris_below(cl, i as int) + tri_pairs(cl, i as int, j as int),
            decreases n - j,
        {
            if dmatrix_get(adj, i, j) == 0 {
                proof {
                    assert(!linked(cl, i as int, j as int));
                    assert(tri_pairs(cl, i as int, j + 1) =~= tri_pairs(cl, i as int, j as int));
                }
                j = j + 1;
                continue;
            }
            let ghost before = tris@;
            let mut k: usize = j + 1;
            assert(before + tri_row(cl, i as int, j as int, k as int) =~= before);
            while k < n
                invariant
                    cl == close@,
                    is_square(cl),
                    cl.len() == n,
                    dmatrix_cells(*adj) == skeleton_graph(cl),
                    i < j < n,
                    j + 1 <= k <= n,
                    tris@ == before + tri_row(cl, i as int, j as int, k as int),
                decreases n - k,
            {
                if dmatrix_get(adj, j, k) == 1 && dmatrix_get(adj, k, i) == 1 {
                    tris.push((i, j, k));
                }
                proof {
                    assert(tri_row(cl, i as int, j as int, k + 1) == tri_row(cl, i as int, j as int, k as int) + if linked(cl, j as int, k as int) && linked(cl, k as int, i as int) {
                        seq![(i as usize, j as usize, k as usize)]
                    } else {
                        seq![]
                    });
                    assert(tris@ =~= before + tri_row(cl, i as int, j as int, k + 1));
                }
                k = k + 1;
            }
            proof {
                assert(linked(cl, i as int, j as int));
                assert(tri_pairs(cl, i as int, j + 1) == tri_pairs(cl, i as int, j as int) + tri_row(cl, i as int, j as int, n as int));
                assert(tris@ =~= tris_below(cl, i as int) + tri_pairs(cl, i as int, j + 1));
            }
            j = j + 1;
        }
        proof {
            assert(tris_below(cl, i + 1) == tris_below(cl, i as int) + tri_pairs(cl, i as int, n as int));
        }
        i = i + 1;
    }
    tris
}

/// Builds the boundary matrix d2 over GF(2) of the triangles `tris` on the
/// edges `edges`.
fn build_boundary(edges: &Vec<(usize, usize)>, tris: &Vec<(usize, usize, usize)>) -> (m: CellMatrix)
    requires
        edges@.len() * tris@.len() <= usize::MAX,
    ensures
        dmatrix_cells(m) == boundary_cells(edges@, tris@),
{
    let ne = edges.len();
    let nt = tris.len();
    let mut m = dmatrix_filled(ne, nt, 0);
    let mut t: usize = 0;
    while t < nt
        invariant
            ne == edges@.len(),
            nt == tris@.len(),
            t <= nt,
            is_grid(dmatrix_cells(m), ne as nat, nt as nat),
            forall|e: int, t2: int|
                0 <= e < ne && 0 <= t2 < nt ==> #[trigger] dmatrix_cells(m)[e][t2] == if t2 < t
                    && is_side(edges@[e], tris@[t2]) {
                    1u8
                } else {
                    0u8
                },
        decreases nt - t,
    {
        let (u, v, w) = tris[t];
        let mut e: usize = 0;
        while e < ne
            invariant
                ne == edges@.len(),
                nt == tris@.len(),
                t < nt,
                tris@[t as int] == (u, v, w),
                e <= ne,
                is_grid(dmatrix_cells(m), ne as nat, nt as nat),
                forall|e2: int, t2: int|
                    0 <= e2 < ne && 0 <= t2 < nt ==> #[trigger] dmatrix_cells(m)[e2][t2] == if (t2 < t
                        || (t2 == t && e2 < e)) && is_side(edges@[e2], tris@[t2]) {
                        1u8
                    } else {
                        0u8
                    },
            decreases ne - e,
        {
            let (a, b) = edges[e];
            if (a == u && b == v) || (a == v && b == w) || (a == u && b == w) {
                dmatrix_set(&mut m, e, t, 1);
            }
            e = e + 1;
        }
        t = t + 1;
    }
    proof {
        let want = boundary_cells(edges@, tris@);
        assert forall|e: int| 0 <= e < ne implies #[trigger] dmatrix_cells(m)[e] =~= want[e] by {
        }
        assert(dmatrix_cells(m) =~= want);
    }
    m
}

/// The boundary matrix of a 1-skeleton has binary cells.
proof fn lemma_boundary_binary(edges: Seq<(usize, usize)>, tris: Seq<(usize, usize, usize)>)
    ensures
        is_binary(boundary_cells(edges, tris)),
        is_grid(boundary_cells(edges, tris), edges.len(), tris.len()),
{
}

} // verus!

verus! {

/// The Betti numbers of the Vietoris-Rips complex whose 1-skeleton joins
/// points `i < j` when `close[i][j]`: Betti-0 is the number of connected
/// components; Betti-1 is the cycle rank |E| - |V| + b0 less the GF(2) rank
/// of the boundary operator on the triangles (the cycles that triangles
/// fill).
pub fn betti_numbers_of_skeleton(close: &Vec<Vec<bool>>) -> (sig: TopologicalSignature)
    requires
        is_square(close.deep_view()),
        close@.len() * close@.len() <= usize::MAX,
        skeleton_edges(close.deep_view()).len() * skeleton_triangles(close.deep_view()).len()
            <= usize::MAX,
    ensures
        sig.betti_0 == num_components(skeleton_graph(close.deep_view())),
        skeleton_triangles(close.deep_view()).len() == 0 ==> sig.betti_1 == cycle_rank(
            skeleton_edges(close.deep_view()).len() as int,
            close@.len() as int,
            sig.betti_0 as int,
        ),
        skeleton_triangles(close.deep_view()).len() > 0 ==> sig.betti_1 == saturating_diff(
            cycle_rank(skeleton_edges(close.deep_view()).len() as int, close@.len() as int, sig.betti_0 as int),
            gf2_rank(
                boundary_cells(skeleton_edges(close.deep_view()), skeleton_triangles(close.deep_view())),
                skeleton_edges(close.deep_view()).len(),
                skeleton_triangles(close.deep_view()).len(),
            ) as int,
        ),
{
    let ghost cl = close.deep_view();
    let n = close.len();
    if n == 0 {
        proof {
            assert(skeleton_edges(cl) =~= seq![]);
            assert(skeleton_triangles(cl) =~= seq![]);
            assert(num_components(skeleton_graph(cl)) == 0);
        }
        return TopologicalSignature { betti_0: 0, betti_1: 0 };
    }
    let (adj, edges) = build_skeleton(close);
    let edge_count = edges.len();
    let b0 = count_connected_components(n, &adj);
    let tris = list_triangles(Ghost(cl), &adj, n);
    let cycle = if edge_count >= n - b0 {
        edge_count - (n - b0)
    } else {
        0
    };
    if tris.len() == 0 {
        return TopologicalSignature { betti_0: b0, betti_1: cycle };
    }
    let mut boundary = build_boundary(&edges, &tris);
    proof {
        lemma_boundary_binary(edges@, tris@);
    }
    let rank = compute_rank_z2(&mut boundary, edge_count, tris.len());
    let b1 = if cycle >= rank {
        cycle - rank
    } else {
        0
    };
    TopologicalSignature { betti_0: b0, betti_1: b1 }
}

} // verus!

verus! {

proof fn lemma_count_roots_bounds(g: Seq<Seq<u8>>, k: nat)
    requires
        k <= g.len(),
    ensures
        count_roots(g, k) <= k,
        k >= 1 ==> count_roots(g, k) >= 1,
    decreases k,
{
    if k > 0 {
        lemma_count_roots_bounds(g, (k - 1) as nat);
        if k == 1 {
            assert(is_root(g, 0));
        }
    }
}

/// A graph on n >= 1 vertices has between 1 and n connected components.
pub proof fn lemma_components_bounds(g: Seq<Seq<u8>>)
    ensures
        num_components(g) <= g.len(),
        g.len() >= 1 ==> num_components(g) >= 1,
{
    lemma_count_roots_bounds(g, g.len());
}

/// Two vertices joined by an edge of a symmetric graph lie in the same
/// component: the larger one is not a root.
pub proof fn lemma_edge_joins_components(g: Seq<Seq<u8>>, u: int, v: int)
    requires
        0 <= u < v < g.len(),
        has_edge(g, u, v),
    ensures
        connected(g, u, v),
        !is_root(g, v),
{
    lemma_connected_self(g, u);
    lemma_connected_extend(g, u, u, v);
}

} // verus!

verus! {

/// The graph's edges go both ways.
pub open spec fn is_symmetric(g: Seq<Seq<u8>>) -> bool {
    forall|u: int, v: int| 0 <= u < g.len() && 0 <= v < g.len() ==> #[trigger] g[u][v] == g[v][u]
}

/// The 1-skeleton of a point cloud is an undirected graph.
pub proof fn lemma_skeleton_graph_symmetric(close: Seq<Seq<bool>>)
    ensures
        is_symmetric(skeleton_graph(close)),
        skeleton_graph(close).len() == close.len(),
{
}

/// In an undirected graph, being connected is an equivalence relation, so
/// that the roots counted by [`num_components`] are the least vertices of
/// the classes.
pub proof fn lemma_connected_is_equivalence(g: Seq<Seq<u8>>, u: int, v: int, w: int)
    requires
        is_symmetric(g),
        is_grid(g, g.len(), g.len()),
        0 <= u < g.len(),
    ensures
        connected(g, u, u),
        connected(g, u, v) ==> connected(g, v, u),
        connected(g, u, v) && connected(g, v, w) ==> connected(g, u, w),
{
    lemma_connected_self(g, u);
    if connected(g, u, v) {
        let p = choose|p: Seq<int>| #[trigger] is_walk(g, p) && p[0] == u && p.last() == v;
        let r = p.reverse();
        assert forall|k: int| 0 <= k < r.len() - 1 implies #[trigger] has_edge(g, r[k], r[k + 1]) by {
            let j = p.len() - 2 - k;
            assert(r[k] == p[j + 1] && r[k + 1] == p[j]);
            assert(has_edge(g, p[j], p[j + 1]));
            assert(0 <= p[j] < g.len() && 0 <= p[j + 1] < g.len());
        }
        assert forall|k: int| 0 <= k < r.len() implies 0 <= #[trigger] r[k] < g.len() by {
            assert(r[k] == p[p.len() - 1 - k]);
        }
        assert(is_walk(g, r));
        assert(r[0] == v && r.last() == u);
    }
    if connected(g, u, v) && connected(g, v, w) {
        lemma_connected_concat(g, u, v, w);
    }
}

} // verus!
