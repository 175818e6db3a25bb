//! The dense matrix that backs an edge-weight table.
//!
//! The matrix is a `nalgebra::DMatrix`. Nothing in this file is proved: the
//! contracts say what the rest of the library assumes of `nalgebra`.

use vstd::prelude::*;

verus! {

/// A dense matrix of `u32` entries, stored in a `nalgebra::DMatrix`. What it
/// holds is known to the proofs only through `matrix_entries`.
#[verifier::external_body]
pub struct WeightMatrix {
    inner: nalgebra::DMatrix<u32>,
}

/// The entries of a matrix, keyed by `(row, column)`. The keys of the map are
/// exactly the positions that lie inside the matrix.
pub uninterp spec fn matrix_entries(m: WeightMatrix) -> Map<(int, int), u32>;

/// Whether `entries` has the shape of a matrix with `rows` rows and `cols` columns.
pub open spec fn has_shape(entries: Map<(int, int), u32>, rows: int, cols: int) -> bool {
    forall|r: int, c: int| #[trigger] entries.dom().contains((r, c)) <==> (0 <= r < rows && 0 <= c < cols)
}

/// `nalgebra::DMatrix::from_diagonal_element`, called for `n` rows and `n`
/// columns: the matrix it returns has that shape, holds `elt` on its
/// diagonal and zero everywhere else. The bound keeps the `n * n` entries of
/// four bytes each within what a single allocation may ask for; beyond it
/// the call panics.
#[verifier::external_body]
pub(crate) fn matrix_diagonal(n: usize, elt: u32) -> (m: WeightMatrix)
    requires
        4 * (n * n) <= isize::MAX,
    ensures
        has_shape(matrix_entries(m), n as int, n as int),
        forall|r: int, c: int| 0 <= r < n && 0 <= c < n ==>
            #[trigger] matrix_entries(m)[(r, c)] == (if r == c { elt } else { 0u32 }),
{
    WeightMatrix { inner: nalgebra::DMatrix::from_diagonal_element(n, n, elt) }
}

/// `nalgebra::Matrix::fill`: every entry becomes `value`, and the shape of
/// the matrix stays as it is.
#[verifier::external_body]
pub(crate) fn matrix_fill(m: &mut WeightMatrix, value: u32)
    ensures
        matrix_entries(*final(m)).dom() == matrix_entries(*old(m)).dom(),
        forall|k: (int, int)| matrix_entries(*old(m)).dom().contains(k) ==>
            #[trigger] matrix_entries(*final(m))[k] == value,
{
    m.inner.fill(value)
}

/// `Index<(usize, usize)>` of `nalgebra::Matrix`: the entry at `(row, col)`.
/// A position outside the matrix, on which the index panics, is left out.
#[verifier::external_body]
pub(crate) fn matrix_get(m: &WeightMatrix, row: usize, col: usize) -> (value: u32)
    requires
        matrix_entries(*m).dom().contains((row as int, col as int)),
    ensures
        value == matrix_entries(*m)[(row as int, col as int)],
{
    m.inner[(row, col)]
}

/// `IndexMut<(usize, usize)>` of `nalgebra::Matrix`, assigned through: the
/// entry at `(row, col)` becomes `value` and nothing else changes. A
/// position outside the matrix, on which the index panics, is left out.
#[verifier::external_body]
pub(crate) fn matrix_set(m: &mut WeightMatrix, row: usize, col: usize, value: u32)
    requires
        matrix_entries(*old(m)).dom().contains((row as int, col as int)),
    ensures
        matrix_entries(*final(m)) == matrix_entries(*old(m)).insert((row as int, col as int), value),
{
    m.inner[(row, col)] = value;
}

} // verus!
