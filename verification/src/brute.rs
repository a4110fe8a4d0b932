//! Brute-force minima finding: one linear scan per lane.
//!
//! These functions are correct on every matrix, monotone or not, and
//! serve as the reference oracle for the faster strategies.

use vstd::prelude::*;

use crate::matrix::{IntMatrix, MatrixAccess, Transposed, is_col_min, is_row_min, lex_le};
use crate::MinimaError;

verus! {

/// Index of the left-most minimum of column `c` among the rows
/// `lo..hi`, found by a simple scan.
pub(crate) fn lane_minimum<M: MatrixAccess>(m: &M, c: usize, lo: usize, hi: usize) -> (r: usize)
    requires
        lo < hi,
        hi <= m.nrows(),
        c < m.ncols(),
        forall |i: int| lo <= i < hi ==> m.queryable(i, c as int),
    ensures
        lo <= r < hi,
        forall |i: int| lo <= i < hi
            ==> lex_le(m.entry(r as int, c as int), r as int, #[trigger] m.entry(i, c as int), i),
{
    let mut best: usize = lo;
    let mut best_v: i64 = m.get(lo, c);
    let mut i: usize = lo + 1;
    while i < hi
        invariant
            lo <= best < i <= hi,
            hi <= m.nrows(),
            c < m.ncols(),
            forall |k: int| lo <= k < hi ==> m.queryable(k, c as int),
            best_v as int == m.entry(best as int, c as int),
            forall |k: int| lo <= k < i
                ==> lex_le(m.entry(best as int, c as int), best as int, #[trigger] m.entry(k, c as int), k),
        decreases hi - i,
    {
        let v = m.get(i, c);
        if v < best_v {
            best = i;
            best_v = v;
        }
        i += 1;
    }
    best
}

/// Column minima of an accessor with `nr` rows and `nc` columns,
/// scanned lane by lane: `res[j]` is the row of the left-most minimum
/// in column `j`.
fn scan_column_minima<M: MatrixAccess>(m: &M, nr: usize, nc: usize) -> (res: Vec<usize>)
    requires
        nr as int == m.nrows(),
        nc as int == m.ncols(),
        nr >= 1,
        forall |i: int, j: int| 0 <= i < m.nrows() && 0 <= j < m.ncols() ==> m.queryable(i, j),
    ensures
        res@.len() == m.ncols(),
        forall |j: int| 0 <= j < m.ncols() ==> is_col_min(m, j, #[trigger] res@[j] as int),
{
    let mut res: Vec<usize> = Vec::new();
    let mut j: usize = 0;
    while j < nc
        invariant
            nr as int == m.nrows(),
            nc as int == m.ncols(),
            nr >= 1,
            0 <= j <= nc,
            res@.len() == j,
            forall |k: int, l: int| 0 <= k < m.nrows() && 0 <= l < m.ncols() ==> m.queryable(k, l),
            forall |k: int| 0 <= k < j ==> is_col_min(m, k, #[trigger] res@[k] as int),
        decreases nc - j,
    {
        let r = lane_minimum(m, j, 0, nr);
        res.push(r);
        j += 1;
    }
    res
}

/// Compute row minima by brute force.
///
/// `result[i]` is the column of the left-most minimum value in row
/// `i`. A matrix with zero columns has no row minima and is rejected
/// with [`MinimaError::EmptyInput`].
pub fn brute_force_row_minima(matrix: &IntMatrix) -> (result: Result<Vec<usize>, MinimaError>)
    requires
        matrix.wf(),
    ensures
        (match result {
            Ok(v) => {
                &&& matrix.ncols() >= 1
                &&& v@.len() == matrix.nrows()
                &&& forall |i: int| 0 <= i < matrix.nrows() ==> is_row_min(matrix, i, #[trigger] v@[i] as int)
            },
            Err(e) => e == MinimaError::EmptyInput && matrix.ncols() == 0,
        }),
{
    if matrix.cols() == 0 {
        return Err(MinimaError::EmptyInput);
    }
    let t = Transposed { m: matrix };
    let v = scan_column_minima(&t, matrix.cols(), matrix.rows());
    proof {
        assert forall |i: int| 0 <= i < matrix.nrows()
            implies is_row_min(matrix, i, #[trigger] v@[i] as int) by {
            assert(is_col_min(&t, i, v@[i] as int));
            assert forall |c2: int| 0 <= c2 < matrix.ncols()
                implies lex_le(matrix.entry(i, v@[i] as int), v@[i] as int,
                    #[trigger] matrix.entry(i, c2), c2) by {
                assert(t.entry(c2, i) == matrix.entry(i, c2));
            }
        }
    }
    Ok(v)
}

/// Compute column minima by brute force.
///
/// `result[j]` is the row of the left-most minimum value in column
/// `j`. A matrix with zero rows has no column minima and is rejected
/// with [`MinimaError::EmptyInput`].
pub fn brute_force_column_minima(matrix: &IntMatrix) -> (result: Result<Vec<usize>, MinimaError>)
    requires
        matrix.wf(),
    ensures
        (match result {
            Ok(v) => {
                &&& matrix.nrows() >= 1
                &&& v@.len() == matrix.ncols()
                &&& forall |j: int| 0 <= j < matrix.ncols() ==> is_col_min(matrix, j, #[trigger] v@[j] as int)
            },
            Err(e) => e == MinimaError::EmptyInput && matrix.nrows() == 0,
        }),
{
    if matrix.rows() == 0 {
        return Err(MinimaError::EmptyInput);
    }
    let v = scan_column_minima(matrix, matrix.rows(), matrix.cols());
    Ok(v)
}

} // verus!
