//! The 1-skeleton matrices of the topological guard, held in `nalgebra`
//! dense matrices.

use vstd::prelude::*;
use nalgebra::DMatrix;

verus! {

/// A dense `u8` matrix of `nalgebra`. The declaration of
/// `nalgebra::VecStorage` is refused (its `Dim` bounds), so the matrix is
/// held here, opaque, and read and written only through the trusted
/// functions below.
#[verifier::external_body]
pub struct CellMatrix {
    m: DMatrix<u8>,
}

/// Name for the cells of a dense `u8` matrix, row by row.
pub uninterp spec fn dmatrix_cells(m: CellMatrix) -> Seq<Seq<u8>>;

/// A `rows` x `cols` matrix of cells.
pub open spec fn is_grid(cells: Seq<Seq<u8>>, rows: nat, cols: nat) -> bool {
    cells.len() == rows && forall|i: int| 0 <= i < rows ==> (#[trigger] cells[i]).len() == cols
}

/// Calls `DMatrix::from_element`. Trusted: the matrix has `nrows` rows of
/// `ncols` cells, each `elem`.
#[verifier::external_body]
pub fn dmatrix_filled(nrows: usize, ncols: usize, elem: u8) -> (m: CellMatrix)
    requires
        nrows * ncols <= usize::MAX,
    ensures
        dmatrix_cells(m) == Seq::new(nrows as nat, |i: int| Seq::new(ncols as nat, |j: int| elem)),
{
    CellMatrix { m: DMatrix::from_element(nrows, ncols, elem) }
}

/// Calls the indexing `m[(i, j)]` of `nalgebra`. Trusted: it reads cell
/// `(i, j)`.
#[verifier::external_body]
pub fn dmatrix_get(m: &CellMatrix, i: usize, j: usize) -> (v: u8)
    requires
        i < dmatrix_cells(*m).len(),
        j < dmatrix_cells(*m)[i as int].len(),
    ensures
        v == dmatrix_cells(*m)[i as int][j as int],
{
    m.m[(i, j)]
}

/// Calls the mutable indexing `m[(i, j)] = v` of `nalgebra`. Trusted: only
/// cell `(i, j)` changes, to `v`.
#[verifier::external_body]
pub fn dmatrix_set(m: &mut CellMatrix, i: usize, j: usize, v: u8)
    requires
        i < dmatrix_cells(*old(m)).len(),
        j < dmatrix_cells(*old(m))[i as int].len(),
    ensures
        dmatrix_cells(*final(m)) == dmatrix_cells(*old(m)).update(
            i as int,
            dmatrix_cells(*old(m))[i as int].update(j as int, v),
        ),
{
    m.m[(i, j)] = v;
}

} // verus!
