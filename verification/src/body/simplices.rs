//! What the simplices of the 1-skeleton and its boundary operator are:
//! the edges are the close pairs, each once; the triangles are the
//! mutually close triples; the boundary column of a triangle holds exactly
//! its three sides.

use vstd::prelude::*;
use crate::body::homology::{row_edges, edges_below, skeleton_edges, tri_row, tri_pairs, tris_below, skeleton_triangles, boundary_cells};

verus! {

/// `x` comes strictly before `y` in lexicographic order.
pub open spec fn pair_lt(x: (usize, usize), y: (usize, usize)) -> bool {
    x.0 < y.0 || (x.0 == y.0 && x.1 < y.1)
}

proof fn lemma_row_edges(close: Seq<Seq<bool>>, i: int, j: int)
    requires
        0 <= i,
        j <= close.len() <= usize::MAX,
    ensures
        forall|a: int| 0 <= a < row_edges(close, i, j).len() ==> {
            let e = #[trigger] row_edges(close, i, j)[a];
            e.0 == i && i < e.1 < j && close[i][e.1 as int]
        },
        forall|a: int, b: int| 0 <= a < b < row_edges(close, i, j).len()
            ==> #[trigger] row_edges(close, i, j)[a].1 < #[trigger] row_edges(close, i, j)[b].1,
        forall|v: int| i < v < j && #[trigger] close[i][v] ==> exists|a: int|
            0 <= a < row_edges(close, i, j).len() && #[trigger] row_edges(close, i, j)[a] == (i as usize, v as usize),
    decreases j - i,
{
    if j > i + 1 {
        lemma_row_edges(close, i, j - 1);
        let r0 = row_edges(close, i, j - 1);
        let r = row_edges(close, i, j);
        let tail = if close[i][j - 1] { seq![(i as usize, (j - 1) as usize)] } else { seq![] };
        assert(r =~= r0 + tail);
        assert forall|a: int| 0 <= a < r.len() implies {
            let e = #[trigger] r[a];
            e.0 == i && i < e.1 < j && close[i][e.1 as int]
        } by {
            if a < r0.len() {
                assert(r[a] == r0[a]);
            }
        }
        assert forall|a: int, b: int| 0 <= a < b < r.len() implies #[trigger] r[a].1 < #[trigger] r[b].1 by {
            if b < r0.len() {
                assert(r[a] == r0[a] && r[b] == r0[b]);
            } else {
                assert(r[a] == r0[a]);
            }
        }
        assert forall|v: int| i < v < j && #[trigger] close[i][v] implies exists|a: int|
            0 <= a < r.len() && #[trigger] r[a] == (i as usize, v as usize) by {
            if v < j - 1 {
                let a = choose|a: int| 0 <= a < r0.len() && #[trigger] r0[a] == (i as usize, v as usize);
                assert(r[a] == r0[a]);
            } else {
                assert(r[r0.len() as int] == (i as usize, v as usize));
            }
        }
    }
}

proof fn lemma_edges_below(close: Seq<Seq<bool>>, i: int)
    requires
        0 <= i <= close.len() <= usize::MAX,
    ensures
        forall|a: int| 0 <= a < edges_below(close, i).len() ==> {
            let e = #[trigger] edges_below(close, i)[a];
            e.0 < i && e.0 < e.1 < close.len() && close[e.0 as int][e.1 as int]
        },
        forall|a: int, b: int| 0 <= a < b < edges_below(close, i).len()
            ==> pair_lt(#[trigger] edges_below(close, i)[a], #[trigger] edges_below(close, i)[b]),
        forall|u: int, v: int| 0 <= u < i && u < v < close.len() && #[trigger] close[u][v] ==> exists|a: int|
            0 <= a < edges_below(close, i).len() && #[trigger] edges_below(close, i)[a] == (u as usize, v as usize),
    decreases i,
{
    if i > 0 {
        let n = close.len() as int;
        lemma_edges_below(close, i - 1);
        lemma_row_edges(close, i - 1, n);
        let e0 = edges_below(close, i - 1);
        let r = row_edges(close, i - 1, n);
        let e = edges_below(close, i);
        assert(e =~= e0 + r);
        assert forall|a: int| 0 <= a < e.len() implies {
            let x = #[trigger] e[a];
            x.0 < i && x.0 < x.1 < n && close[x.0 as int][x.1 as int]
        } by {
            if a < e0.len() {
                assert(e[a] == e0[a]);
            } else {
                assert(e[a] == r[a - e0.len()]);
            }
        }
        assert forall|a: int, b: int| 0 <= a < b < e.len() implies pair_lt(#[trigger] e[a], #[trigger] e[b]) by {
            if b < e0.len() {
                assert(e[a] == e0[a] && e[b] == e0[b]);
            } else if a < e0.len() {
                assert(e[a] == e0[a] && e[b] == r[b - e0.len()]);
            } else {
                assert(e[a] == r[a - e0.len()] && e[b] == r[b - e0.len()]);
            }
        }
        assert forall|u: int, v: int| 0 <= u < i && u < v < n && #[trigger] close[u][v] implies exists|a: int|
            0 <= a < e.len() && #[trigger] e[a] == (u as usize, v as usize) by {
            if u < i - 1 {
                let a = choose|a: int| 0 <= a < e0.len() && #[trigger] e0[a] == (u as usize, v as usize);
                assert(e[a] == e0[a]);
            } else {
                let a = choose|a: int| 0 <= a < r.len() && #[trigger] r[a] == (u as usize, v as usize);
                assert(e[e0.len() + a] == r[a]);
            }
        }
    }
}

/// The edges of the 1-skeleton are the close pairs `(u, v)`, `u < v`, each
/// listed once, in strictly increasing lexicographic order.
pub proof fn lemma_skeleton_edges(close: Seq<Seq<bool>>)
    requires
        close.len() <= usize::MAX,
    ensures
        forall|a: int| 0 <= a < skeleton_edges(close).len() ==> {
            let e = #[trigger] skeleton_edges(close)[a];
            e.0 < e.1 < close.len() && close[e.0 as int][e.1 as int]
        },
        forall|a: int, b: int| 0 <= a < b < skeleton_edges(close).len()
            ==> pair_lt(#[trigger] skeleton_edges(close)[a], #[trigger] skeleton_edges(close)[b]),
        forall|u: int, v: int| 0 <= u < v < close.len() && #[trigger] close[u][v] ==> exists|a: int|
            0 <= a < skeleton_edges(close).len() && #[trigger] skeleton_edges(close)[a] == (u as usize, v as usize),
{
    lemma_edges_below(close, close.len() as int);
    let e = skeleton_edges(close);
    assert(e == edges_below(close, close.len() as int));
    assert forall|u: int, v: int| 0 <= u < v < close.len() && #[trigger] close[u][v] implies exists|a: int|
        0 <= a < e.len() && #[trigger] e[a] == (u as usize, v as usize) by {
        assert(0 <= u < close.len() as int);
    }
}

/// `t` lists three points `u < v < w` of the cloud, pairwise close.
pub open spec fn is_close_triple(close: Seq<Seq<bool>>, t: (usize, usize, usize)) -> bool {
    &&& t.0 < t.1 < t.2 < close.len()
    &&& close[t.0 as int][t.1 as int]
    &&& close[t.1 as int][t.2 as int]
    &&& close[t.0 as int][t.2 as int]
}

proof fn lemma_tri_row(close: Seq<Seq<bool>>, i: int, j: int, k: int)
    requires
        0 <= i < j,
        k <= close.len() <= usize::MAX,
        close[i][j],
    ensures
        forall|a: int| 0 <= a < tri_row(close, i, j, k).len() ==> is_close_triple(close, #[trigger] tri_row(close, i, j, k)[a]),
    decreases k - j,
{
    if k > j + 1 {
        lemma_tri_row(close, i, j, k - 1);
        let r0 = tri_row(close, i, j, k - 1);
        let r = tri_row(close, i, j, k);
        let tail = if crate::body::homology::linked(close, j, k - 1) && crate::body::homology::linked(close, k - 1, i) {
            seq![(i as usize, j as usize, (k - 1) as usize)]
        } else {
            seq![]
        };
        assert(r =~= r0 + tail);
        assert forall|a: int| 0 <= a < r.len() implies is_close_triple(close, #[trigger] r[a]) by {
            if a < r0.len() {
                assert(r[a] == r0[a]);
            }
        }
    }
}

proof fn lemma_tri_pairs(close: Seq<Seq<bool>>, i: int, j: int)
    requires
        0 <= i,
        j <= close.len() <= usize::MAX,
    ensures
        forall|a: int| 0 <= a < tri_pairs(close, i, j).len() ==> is_close_triple(close, #[trigger] tri_pairs(close, i, j)[a]),
    decreases j - i,
{
    if j > i + 1 {
        lemma_tri_pairs(close, i, j - 1);
        let r0 = tri_pairs(close, i, j - 1);
        let r = tri_pairs(close, i, j);
        if crate::body::homology::linked(close, i, j - 1) {
            let row = tri_row(close, i, j - 1, close.len() as int);
            lemma_tri_row(close, i, j - 1, close.len() as int);
            assert(r =~= r0 + row);
            assert forall|a: int| 0 <= a < r.len() implies is_close_triple(close, #[trigger] r[a]) by {
                if a < r0.len() {
                    assert(r[a] == r0[a]);
                } else {
                    assert(r[a] == row[a - r0.len()]);
                }
            }
        } else {
            assert(r =~= r0);
        }
    }
}

proof fn lemma_tris_below(close: Seq<Seq<bool>>, i: int)
    requires
        0 <= i <= close.len() <= usize::MAX,
    ensures
        forall|a: int| 0 <= a < tris_below(close, i).len() ==> is_close_triple(close, #[trigger] tris_below(close, i)[a]),
    decreases i,
{
    if i > 0 {
        lemma_tris_below(close, i - 1);
        lemma_tri_pairs(close, i - 1, close.len() as int);
        let r0 = tris_below(close, i - 1);
        let p = tri_pairs(close, i - 1, close.len() as int);
        let r = tris_below(close, i);
        assert(r =~= r0 + p);
        assert forall|a: int| 0 <= a < r.len() implies is_close_triple(close, #[trigger] r[a]) by {
            if a < r0.len() {
                assert(r[a] == r0[a]);
            } else {
                assert(r[a] == p[a - r0.len()]);
            }
        }
    }
}

/// Every triangle of the complex is a triple `u < v < w` of pairwise close
/// points.
pub proof fn lemma_skeleton_triangles(close: Seq<Seq<bool>>)
    requires
        close.len() <= usize::MAX,
    ensures
        forall|a: int| 0 <= a < skeleton_triangles(close).len() ==> is_close_triple(close, #[trigger] skeleton_triangles(close)[a]),
{
    lemma_tris_below(close, close.len() as int);
}

/// The boundary over GF(2) of each triangle `(u, v, w)` of the complex is
/// the sum of its three sides: its column in the boundary matrix holds
/// exactly three ones, at the (distinct) edges `(u, v)`, `(v, w)` and
/// `(u, w)`, and zeros everywhere else.
pub proof fn lemma_boundary_column_is_three_sides(close: Seq<Seq<bool>>, k: int)
    requires
        close.len() <= usize::MAX,
        0 <= k < skeleton_triangles(close).len(),
    ensures
        exists|e1: int, e2: int, e3: int|
            #![trigger skeleton_edges(close)[e1], skeleton_edges(close)[e2], skeleton_edges(close)[e3]]
            0 <= e1 < skeleton_edges(close).len() && 0 <= e2 < skeleton_edges(close).len()
                && 0 <= e3 < skeleton_edges(close).len() && e1 != e2 && e2 != e3 && e1 != e3
                && skeleton_edges(close)[e1] == (skeleton_triangles(close)[k].0, skeleton_triangles(close)[k].1)
                && skeleton_edges(close)[e2] == (skeleton_triangles(close)[k].1, skeleton_triangles(close)[k].2)
                && skeleton_edges(close)[e3] == (skeleton_triangles(close)[k].0, skeleton_triangles(close)[k].2)
                && forall|e: int| 0 <= e < skeleton_edges(close).len()
                    ==> #[trigger] boundary_cells(skeleton_edges(close), skeleton_triangles(close))[e][k]
                    == if e == e1 || e == e2 || e == e3 { 1u8 } else { 0u8 },
{
    let edges = skeleton_edges(close);
    let tris = skeleton_triangles(close);
    let t = tris[k];
    lemma_skeleton_edges(close);
    lemma_skeleton_triangles(close);
    assert(is_close_triple(close, t));
    let (u, v, w) = (t.0 as int, t.1 as int, t.2 as int);
    assert(close[u][v] && close[v][w] && close[u][w]);
    let e1 = choose|a: int| 0 <= a < edges.len() && #[trigger] edges[a] == (u as usize, v as usize);
    let e2 = choose|a: int| 0 <= a < edges.len() && #[trigger] edges[a] == (v as usize, w as usize);
    let e3 = choose|a: int| 0 <= a < edges.len() && #[trigger] edges[a] == (u as usize, w as usize);
    let b = boundary_cells(edges, tris);
    assert forall|e: int| 0 <= e < edges.len() implies #[trigger] b[e][k]
        == if e == e1 || e == e2 || e == e3 { 1u8 } else { 0u8 } by {
        // an edge equal to one of the sides is that side's index: the edges
        // are strictly increasing
        if e != e1 && edges[e] == edges[e1] {
            if e < e1 {
                assert(pair_lt(edges[e], edges[e1]));
            } else {
                assert(pair_lt(edges[e1], edges[e]));
            }
        }
        if e != e2 && edges[e] == edges[e2] {
            if e < e2 {
                assert(pair_lt(edges[e], edges[e2]));
            } else {
                assert(pair_lt(edges[e2], edges[e]));
            }
        }
        if e != e3 && edges[e] == edges[e3] {
            if e < e3 {
                assert(pair_lt(edges[e], edges[e3]));
            } else {
                assert(pair_lt(edges[e3], edges[e]));
            }
        }
    }
    assert(e1 != e2 && e2 != e3 && e1 != e3);
    assert(edges[e1] == (t.0, t.1) && edges[e2] == (t.1, t.2) && edges[e3] == (t.0, t.2));
}

proof fn lemma_tri_row_complete(close: Seq<Seq<bool>>, i: int, j: int, k: int)
    requires
        0 <= i < j,
        k <= close.len() <= usize::MAX,
    ensures
        forall|w: int| j < w < k && #[trigger] close[j][w] && close[i][w] ==> exists|a: int|
            0 <= a < tri_row(close, i, j, k).len()
                && #[trigger] tri_row(close, i, j, k)[a] == (i as usize, j as usize, w as usize),
    decreases k - j,
{
    if k > j + 1 {
        lemma_tri_row_complete(close, i, j, k - 1);
        let r0 = tri_row(close, i, j, k - 1);
        let r = tri_row(close, i, j, k);
        let tail = if crate::body::homology::linked(close, j, k - 1) && crate::body::homology::linked(close, k - 1, i) {
            seq![(i as usize, j as usize, (k - 1) as usize)]
        } else {
            seq![]
        };
        assert(r =~= r0 + tail);
        assert forall|w: int| j < w < k && #[trigger] close[j][w] && close[i][w] implies exists|a: int|
            0 <= a < r.len() && #[trigger] r[a] == (i as usize, j as usize, w as usize) by {
            if w < k - 1 {
                let a = choose|a: int| 0 <= a < r0.len() && #[trigger] r0[a] == (i as usize, j as usize, w as usize);
                assert(r[a] == r0[a]);
            } else {
                assert(r[r0.len() as int] == (i as usize, j as usize, w as usize));
            }
        }
    }
}

proof fn lemma_tri_pairs_complete(close: Seq<Seq<bool>>, i: int, j: int)
    requires
        0 <= i,
        j <= close.len() <= usize::MAX,
    ensures
        forall|v: int, w: int| i < v < j && v < w < close.len() && #[trigger] close[i][v] && #[trigger] close[v][w]
            && close[i][w] ==> exists|a: int|
            0 <= a < tri_pairs(close, i, j).len()
                && #[trigger] tri_pairs(close, i, j)[a] == (i as usize, v as usize, w as usize),
    decreases j - i,
{
    if j > i + 1 {
        lemma_tri_pairs_complete(close, i, j - 1);
        let r0 = tri_pairs(close, i, j - 1);
        let r = tri_pairs(close, i, j);
        let n = close.len() as int;
        if crate::body::homology::linked(close, i, j - 1) {
            let row = tri_row(close, i, j - 1, n);
            lemma_tri_row_complete(close, i, j - 1, n);
            assert(r =~= r0 + row);
        } else {
            assert(r =~= r0);
        }
        assert forall|v: int, w: int| i < v < j && v < w < n && #[trigger] close[i][v] && #[trigger] close[v][w]
            && close[i][w] implies exists|a: int|
            0 <= a < r.len() && #[trigger] r[a] == (i as usize, v as usize, w as usize) by {
            if v < j - 1 {
                let a = choose|a: int| 0 <= a < r0.len() && #[trigger] r0[a] == (i as usize, v as usize, w as usize);
                assert(r[a] == r0[a]);
            } else {
                let row = tri_row(close, i, j - 1, n);
                assert(crate::body::homology::linked(close, i, j - 1));
                assert(close[j - 1][w]);
                let a = choose|a: int| 0 <= a < row.len() && #[trigger] row[a] == (i as usize, v as usize, w as usize);
                assert(r[r0.len() + a] == row[a]);
            }
        }
    }
}

proof fn lemma_tris_below_complete(close: Seq<Seq<bool>>, i: int)
    requires
        0 <= i <= close.len() <= usize::MAX,
    ensures
        forall|u: int, v: int, w: int| 0 <= u < i && u < v < w < close.len() && #[trigger] close[u][v]
            && #[trigger] close[v][w] && close[u][w] ==> exists|a: int|
            0 <= a < tris_below(close, i).len()
                && #[trigger] tris_below(close, i)[a] == (u as usize, v as usize, w as usize),
    decreases i,
{
    if i > 0 {
        let n = close.len() as int;
        lemma_tris_below_complete(close, i - 1);
        lemma_tri_pairs_complete(close, i - 1, n);
        let r0 = tris_below(close, i - 1);
        let pr = tri_pairs(close, i - 1, n);
        let r = tris_below(close, i);
        assert(r =~= r0 + pr);
        assert forall|u: int, v: int, w: int| 0 <= u < i && u < v < w < n && #[trigger] close[u][v]
            && #[trigger] close[v][w] && close[u][w] implies exists|a: int|
            0 <= a < r.len() && #[trigger] r[a] == (u as usize, v as usize, w as usize) by {
            if u < i - 1 {
                let a = choose|a: int| 0 <= a < r0.len() && #[trigger] r0[a] == (u as usize, v as usize, w as usize);
                assert(r[a] == r0[a]);
            } else {
                let a = choose|a: int| 0 <= a < pr.len() && #[trigger] pr[a] == (u as usize, v as usize, w as usize);
                assert(r[r0.len() + a] == pr[a]);
            }
        }
    }
}

/// Every triple `u < v < w` of pairwise close points is a triangle of the
/// complex.
pub proof fn lemma_close_triples_are_triangles(close: Seq<Seq<bool>>, u: int, v: int, w: int)
    requires
        close.len() <= usize::MAX,
        0 <= u < v < w < close.len(),
        close[u][v],
        close[v][w],
        close[u][w],
    ensures
        exists|a: int| 0 <= a < skeleton_triangles(close).len()
            && #[trigger] skeleton_triangles(close)[a] == (u as usize, v as usize, w as usize),
{
    let n = close.len() as int;
    lemma_tris_below_complete(close, n);
    assert(close[u][v] && close[v][w]);
    let tb = tris_below(close, n);
    let a = choose|a: int| 0 <= a < tb.len() && #[trigger] tb[a] == (u as usize, v as usize, w as usize);
    assert(skeleton_triangles(close)[a] == tb[a]);
}

} // verus!
