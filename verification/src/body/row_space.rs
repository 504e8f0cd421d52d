//! The row space over GF(2) of a binary matrix, and why the rank that
//! Gaussian elimination reports does not depend on the row operations it
//! chose: every elementary row operation keeps the set of leading columns
//! of the row space, and a row-echelon form shows that set as its pivots.

use vstd::prelude::*;
use crate::body::skeleton::is_grid;
use crate::body::homology::{
    RowOp, apply_row_op, apply_row_ops, valid_row_op, valid_row_ops, is_binary, is_echelon,
    is_gf2_rank, xor_cell,
};

verus! {

/// The sum over GF(2) of a sequence of bits.
pub open spec fn parity(s: Seq<bool>) -> bool
    decreases s.len(),
{
    if s.len() == 0 {
        false
    } else {
        parity(s.drop_last()) != s.last()
    }
}

/// The terms of column `c` in the combination of the rows of `m` chosen by `x`.
pub open spec fn terms(m: Seq<Seq<u8>>, x: Seq<bool>, c: int) -> Seq<bool> {
    Seq::new(x.len(), |i: int| x[i] && m[i][c] == 1)
}

/// The sum over GF(2) of the rows `i` of the `cols`-column matrix `m` with
/// `x[i]` set.
pub open spec fn comb(m: Seq<Seq<u8>>, cols: nat, x: Seq<bool>) -> Seq<bool> {
    Seq::new(cols, |c: int| parity(terms(m, x, c)))
}

/// The first set bit of `v` stands in column `j`.
pub open spec fn is_lead(v: Seq<bool>, j: int) -> bool {
    &&& 0 <= j < v.len()
    &&& v[j]
    &&& forall|c: int| 0 <= c < j ==> !#[trigger] v[c]
}

/// Some vector of the row space of the `rows` x `cols` matrix `m` has its
/// first set bit in column `j`.
pub open spec fn lead_of(m: Seq<Seq<u8>>, rows: nat, cols: nat, j: int) -> bool {
    exists|x: Seq<bool>| x.len() == rows && #[trigger] is_lead(comb(m, cols, x), j)
}

proof fn lemma_parity_update(s: Seq<bool>, p: int, a: bool)
    requires
        0 <= p < s.len(),
    ensures
        parity(s.update(p, a)) == ((parity(s) != s[p]) != a),
    decreases s.len(),
{
    let t = s.update(p, a);
    if p == s.len() - 1 {
        assert(t.drop_last() =~= s.drop_last());
    } else {
        assert(t.drop_last() =~= s.drop_last().update(p, a));
        lemma_parity_update(s.drop_last(), p, a);
    }
}

proof fn lemma_parity_none(s: Seq<bool>)
    requires
        forall|k: int| 0 <= k < s.len() ==> !#[trigger] s[k],
    ensures
        !parity(s),
    decreases s.len(),
{
    if s.len() > 0 {
        lemma_parity_none(s.drop_last());
    }
}

/// A sum with at most one set term, at `p`, is that term.
proof fn lemma_parity_single(s: Seq<bool>, p: int)
    requires
        0 <= p < s.len(),
        forall|k: int| 0 <= k < s.len() && k != p ==> !#[trigger] s[k],
    ensures
        parity(s) == s[p],
{
    let z = s.update(p, false);
    lemma_parity_none(z);
    lemma_parity_update(z, p, s[p]);
    assert(z.update(p, s[p]) =~= s);
}

/// Changing two terms changes the sum by the four bits involved.
proof fn lemma_parity_update2(s: Seq<bool>, p: int, a: bool, q: int, b: bool)
    requires
        0 <= p < s.len(),
        0 <= q < s.len(),
        p != q,
    ensures
        parity(s.update(p, a).update(q, b)) == ((((parity(s) != s[p]) != a) != s[q]) != b),
{
    lemma_parity_update(s, p, a);
    lemma_parity_update(s.update(p, a), q, b);
}

/// Adding row `s` into row `t` and then summing the rows chosen by `x` is
/// summing the old rows chosen by `x` with the choice of `s` flipped where `t`
/// was chosen.
proof fn lemma_comb_add_row(m: Seq<Seq<u8>>, rows: nat, cols: nat, t: int, s: int, x: Seq<bool>)
    requires
        is_grid(m, rows, cols),
        is_binary(m),
        0 <= t < rows,
        0 <= s < rows,
        t != s,
        x.len() == rows,
    ensures
        comb(apply_row_op(m, RowOp::AddRow(t, s)), cols, x) == comb(m, cols, x.update(s, x[s] != x[t])),
{
    let m2 = apply_row_op(m, RowOp::AddRow(t, s));
    let x2 = x.update(s, x[s] != x[t]);
    assert forall|c: int| 0 <= c < cols implies parity(#[trigger] terms(m2, x, c)) == parity(terms(m, x2, c)) by {
        let a = terms(m, x2, c);
        let b = terms(m2, x, c);
        assert(m[t].len() == cols && m[s].len() == cols);
        assert(m[t][c] <= 1 && m[s][c] <= 1);
        assert(m2[t][c] == xor_cell(m[t][c], m[s][c]));
        assert(b =~= a.update(t, b[t]).update(s, b[s]));
        lemma_parity_update2(a, t, b[t], s, b[s]);
    }
    assert(comb(m2, cols, x) =~= comb(m, cols, x2));
}

/// Exchanging rows `i` and `j` and then summing the rows chosen by `x` is
/// summing the old rows with the choices of `i` and `j` exchanged.
proof fn lemma_comb_swap(m: Seq<Seq<u8>>, rows: nat, cols: nat, i: int, j: int, x: Seq<bool>)
    requires
        is_grid(m, rows, cols),
        0 <= i < rows,
        0 <= j < rows,
        x.len() == rows,
    ensures
        comb(apply_row_op(m, RowOp::Swap(i, j)), cols, x) == comb(m, cols, x.update(i, x[j]).update(j, x[i])),
{
    let m2 = apply_row_op(m, RowOp::Swap(i, j));
    let x2 = x.update(i, x[j]).update(j, x[i]);
    if i == j {
        assert(m2 =~= m);
        assert(x2 =~= x);
    } else {
        assert forall|c: int| 0 <= c < cols implies parity(#[trigger] terms(m2, x, c)) == parity(terms(m, x2, c)) by {
            let a = terms(m, x2, c);
            let b = terms(m2, x, c);
            assert(b =~= a.update(i, b[i]).update(j, b[j]));
            lemma_parity_update2(a, i, b[i], j, b[j]);
        }
    }
    assert(comb(m2, cols, x) =~= comb(m, cols, x2));
}

/// The choice of old rows that gives the same sum as the choice `x` of rows
/// after `op`.
pub open spec fn pull_back(op: RowOp, x: Seq<bool>) -> Seq<bool> {
    match op {
        RowOp::Swap(i, j) => x.update(i, x[j]).update(j, x[i]),
        RowOp::AddRow(t, s) => x.update(s, x[s] != x[t]),
    }
}

proof fn lemma_comb_op(m: Seq<Seq<u8>>, rows: nat, cols: nat, op: RowOp, x: Seq<bool>)
    requires
        is_grid(m, rows, cols),
        is_binary(m),
        valid_row_op(op, rows),
        x.len() == rows,
    ensures
        comb(apply_row_op(m, op), cols, x) == comb(m, cols, pull_back(op, x)),
        pull_back(op, x).len() == rows,
        pull_back(op, pull_back(op, x)) == x,
{
    match op {
        RowOp::Swap(i, j) => {
            lemma_comb_swap(m, rows, cols, i, j, x);
            assert(pull_back(op, pull_back(op, x)) =~= x);
        },
        RowOp::AddRow(t, s) => {
            lemma_comb_add_row(m, rows, cols, t, s, x);
            assert(pull_back(op, pull_back(op, x)) =~= x);
        },
    }
}

/// An elementary row operation keeps the shape and the binary cells of the
/// matrix, and the leading columns of its row space.
proof fn lemma_lead_op(m: Seq<Seq<u8>>, rows: nat, cols: nat, op: RowOp)
    requires
        is_grid(m, rows, cols),
        is_binary(m),
        valid_row_op(op, rows),
    ensures
        is_grid(apply_row_op(m, op), rows, cols),
        is_binary(apply_row_op(m, op)),
        forall|j: int| #[trigger] lead_of(apply_row_op(m, op), rows, cols, j) == lead_of(m, rows, cols, j),
{
    let m2 = apply_row_op(m, op);
    assert(is_grid(m2, rows, cols));
    assert forall|i: int, c: int| 0 <= i < m2.len() && 0 <= c < m2[i].len() implies #[trigger] m2[i][c] <= 1 by {
        match op {
            RowOp::Swap(a, b) => {},
            RowOp::AddRow(t, s) => {
                if i == t {
                    assert(m2[i][c] == xor_cell(m[t][c], m[s][c]));
                }
            },
        }
    }
    assert forall|j: int| #[trigger] lead_of(m2, rows, cols, j) == lead_of(m, rows, cols, j) by {
        if lead_of(m2, rows, cols, j) {
            let x = choose|x: Seq<bool>| x.len() == rows && #[trigger] is_lead(comb(m2, cols, x), j);
            lemma_comb_op(m, rows, cols, op, x);
            assert(is_lead(comb(m, cols, pull_back(op, x)), j));
        }
        if lead_of(m, rows, cols, j) {
            let x = choose|x: Seq<bool>| x.len() == rows && #[trigger] is_lead(comb(m, cols, x), j);
            let y = pull_back(op, x);
            lemma_comb_op(m, rows, cols, op, x);
            lemma_comb_op(m, rows, cols, op, y);
            assert(is_lead(comb(m2, cols, y), j));
        }
    }
}

/// A sequence of elementary row operations keeps the shape, the binary
/// cells and the leading columns of the row space.
proof fn lemma_lead_ops(m: Seq<Seq<u8>>, rows: nat, cols: nat, ops: Seq<RowOp>)
    requires
        is_grid(m, rows, cols),
        is_binary(m),
        valid_row_ops(ops, rows),
    ensures
        is_grid(apply_row_ops(m, ops), rows, cols),
        is_binary(apply_row_ops(m, ops)),
        forall|j: int| #[trigger] lead_of(apply_row_ops(m, ops), rows, cols, j) == lead_of(m, rows, cols, j),
    decreases ops.len(),
{
    if ops.len() > 0 {
        let init = ops.drop_last();
        assert forall|k: int| 0 <= k < init.len() implies valid_row_op(#[trigger] init[k], rows) by {
            assert(init[k] == ops[k]);
        }
        lemma_lead_ops(m, rows, cols, init);
        assert(valid_row_op(ops[ops.len() - 1], rows));
        lemma_lead_op(apply_row_ops(m, init), rows, cols, ops.last());
    }
}

proof fn lemma_first_set(x: Seq<bool>, k: int) -> (i0: int)
    requires
        0 <= k <= x.len(),
        exists|i: int| 0 <= i < k && #[trigger] x[i],
    ensures
        0 <= i0 < k,
        x[i0],
        forall|i: int| 0 <= i < i0 ==> !#[trigger] x[i],
    decreases k,
{
    if exists|i: int| 0 <= i < k - 1 && #[trigger] x[i] {
        lemma_first_set(x, k - 1)
    } else {
        k - 1
    }
}

/// Column `c`, up to the pivot of row `i0`, of the sum of the rows of an
/// echelon form chosen by `x`, when `i0` is the first chosen row.
proof fn lemma_echelon_column(
    e: Seq<Seq<u8>>,
    rows: nat,
    cols: nat,
    r: nat,
    pc: Seq<int>,
    x: Seq<bool>,
    i0: int,
    c: int,
)
    requires
        is_grid(e, rows, cols),
        is_echelon(e, rows, cols, r, pc),
        x.len() == rows,
        0 <= i0 < r,
        forall|i: int| 0 <= i < i0 ==> !#[trigger] x[i],
        0 <= c <= pc[i0],
    ensures
        parity(terms(e, x, c)) == (x[i0] && e[i0][c] == 1),
{
    let t = terms(e, x, c);
    assert forall|k: int| 0 <= k < t.len() && k != i0 implies !#[trigger] t[k] by {
        if k < i0 {
        } else if k < r {
            assert(pc[i0] < pc[k]);
            assert(e[k][c] == 0);
        } else {
            assert(e[k][c] == 0);
        }
    }
    lemma_parity_single(t, i0);
}

/// The leading columns of the row space of a row-echelon form are its pivot
/// columns.
proof fn lemma_echelon_leads(e: Seq<Seq<u8>>, rows: nat, cols: nat, r: nat, pc: Seq<int>)
    requires
        is_grid(e, rows, cols),
        is_echelon(e, rows, cols, r, pc),
    ensures
        forall|j: int| #[trigger] lead_of(e, rows, cols, j) == pc.contains(j),
{
    assert forall|j: int| #[trigger] lead_of(e, rows, cols, j) == pc.contains(j) by {
        if pc.contains(j) {
            let i = choose|i: int| 0 <= i < pc.len() && pc[i] == j;
            let x = Seq::new(rows, |k: int| k == i);
            let v = comb(e, cols, x);
            assert forall|c: int| 0 <= c <= j implies v[c] == (c == j) by {
                lemma_echelon_column(e, rows, cols, r, pc, x, i, c);
            }
            assert(is_lead(v, j));
        }
        if lead_of(e, rows, cols, j) {
            let x = choose|x: Seq<bool>| x.len() == rows && #[trigger] is_lead(comb(e, cols, x), j);
            let v = comb(e, cols, x);
            if exists|i: int| 0 <= i < r && #[trigger] x[i] {
                let i0 = lemma_first_set(x, r as int);
                lemma_echelon_column(e, rows, cols, r, pc, x, i0, pc[i0]);
                if j < pc[i0] {
                    lemma_echelon_column(e, rows, cols, r, pc, x, i0, j);
                    assert(!v[j]);
                }
                assert(!(j > pc[i0]) ==> j == pc[i0]);
                if j > pc[i0] {
                    assert(v[pc[i0]]);
                    assert(false);
                }
                assert(pc[i0] == j);
            } else {
                let t = terms(e, x, j);
                assert forall|k: int| 0 <= k < t.len() implies !#[trigger] t[k] by {
                    if k >= r {
                        assert(e[k][j] == 0);
                    }
                }
                lemma_parity_none(t);
                assert(false);
            }
        }
    }
}

proof fn lemma_pivots_no_duplicates(e: Seq<Seq<u8>>, rows: nat, cols: nat, r: nat, pc: Seq<int>)
    requires
        is_echelon(e, rows, cols, r, pc),
    ensures
        pc.no_duplicates(),
        pc.len() == pc.to_set().len(),
{
    assert forall|i: int, j: int| 0 <= i < pc.len() && 0 <= j < pc.len() && i != j implies pc[i] != pc[j] by {
        if i < j {
            assert(pc[i] < pc[j]);
        } else {
            assert(pc[j] < pc[i]);
        }
    }
    pc.unique_seq_to_set();
}

/// The rank over GF(2) is well defined: any two sequences of elementary row
/// operations that bring a binary matrix to row-echelon form leave the same
/// number of non-zero rows.
pub proof fn lemma_gf2_rank_unique(m: Seq<Seq<u8>>, rows: nat, cols: nat, r1: nat, r2: nat)
    requires
        is_grid(m, rows, cols),
        is_binary(m),
        is_gf2_rank(m, rows, cols, r1),
        is_gf2_rank(m, rows, cols, r2),
    ensures
        r1 == r2,
{
    let (ops1, pc1) = choose|ops: Seq<RowOp>, pc: Seq<int>|
        valid_row_ops(ops, rows) && #[trigger] is_echelon(apply_row_ops(m, ops), rows, cols, r1, pc);
    let (ops2, pc2) = choose|ops: Seq<RowOp>, pc: Seq<int>|
        valid_row_ops(ops, rows) && #[trigger] is_echelon(apply_row_ops(m, ops), rows, cols, r2, pc);
    let e1 = apply_row_ops(m, ops1);
    let e2 = apply_row_ops(m, ops2);
    lemma_lead_ops(m, rows, cols, ops1);
    lemma_lead_ops(m, rows, cols, ops2);
    lemma_echelon_leads(e1, rows, cols, r1, pc1);
    lemma_echelon_leads(e2, rows, cols, r2, pc2);
    assert forall|j: int| pc1.to_set().contains(j) == pc2.to_set().contains(j) by {
        assert(lead_of(e1, rows, cols, j) == lead_of(m, rows, cols, j));
        assert(lead_of(e2, rows, cols, j) == lead_of(m, rows, cols, j));
    }
    assert(pc1.to_set() =~= pc2.to_set());
    lemma_pivots_no_duplicates(e1, rows, cols, r1, pc1);
    lemma_pivots_no_duplicates(e2, rows, cols, r2, pc2);
}

/// The rank over GF(2) of the binary `rows` x `cols` matrix `m`.
pub open spec fn gf2_rank(m: Seq<Seq<u8>>, rows: nat, cols: nat) -> nat {
    choose|r: nat| is_gf2_rank(m, rows, cols, r)
}

/// Any number of non-zero rows that an echelon form reached by row
/// operations shows is the rank.
pub proof fn lemma_gf2_rank_is(m: Seq<Seq<u8>>, rows: nat, cols: nat, r: nat)
    requires
        is_grid(m, rows, cols),
        is_binary(m),
        is_gf2_rank(m, rows, cols, r),
    ensures
        gf2_rank(m, rows, cols) == r,
{
    lemma_gf2_rank_unique(m, rows, cols, gf2_rank(m, rows, cols), r);
}

} // verus!
