//! Divide-and-conquer minima finding.
//!
//! The minimum of the middle lane splits a totally monotone matrix
//! into two independent quadrants: lanes before the middle keep their
//! minima at or before the middle lane's minimum, lanes after it at or
//! after. Each recursive call works on an index range of the original
//! matrix, never on a copied submatrix.

use vstd::prelude::*;

use crate::brute::lane_minimum;
use crate::matrix::{
    IntMatrix, MatrixAccess, Transposed, is_col_min, is_row_min, lex_le, tm_pair,
    tm_pair_rowwise, totally_monotone, totally_monotone_rowwise,
};
use crate::MinimaError;

verus! {

/// `r` is the row of the left-most minimum of column `c` among the
/// rows `lo..hi`.
pub open spec fn is_min_range<M: MatrixAccess>(m: &M, c: int, lo: int, hi: int, r: usize) -> bool {
    &&& lo <= r < hi
    &&& forall |i: int| lo <= i < hi
            ==> lex_le(m.entry(r as int, c), r as int, #[trigger] m.entry(i, c), i)
}

/// The true left-most minimum row of column `c` lies in `lo..hi`.
pub open spec fn has_min_in_range<M: MatrixAccess>(m: &M, c: int, lo: int, hi: int) -> bool {
    exists |rg: usize| #[trigger] is_min_range(m, c, 0, m.nrows(), rg) && lo <= rg < hi
}

/// Each non-empty row range has a left-most minimum in every column.
proof fn lemma_range_min_exists<M: MatrixAccess>(m: &M, c: int, lo: int, hi: int) -> (r: usize)
    requires
        0 <= lo < hi,
        hi <= usize::MAX,
    ensures
        is_min_range(m, c, lo, hi, r),
    decreases hi - lo,
{
    if hi == lo + 1 {
        let r = lo as usize;
        assert(r as int == lo);
        r
    } else {
        let r0 = lemma_range_min_exists(m, c, lo, hi - 1);
        let last = (hi - 1) as usize;
        if lex_le(m.entry(r0 as int, c), r0 as int, m.entry(last as int, c), last as int) {
            r0
        } else {
            last
        }
    }
}

/// In a totally monotone matrix, the left-most minima of later columns
/// sit in the same or later rows.
proof fn lemma_range_argmin_monotone<M: MatrixAccess>(
    m: &M, lo: int, hi: int, c1: int, c2: int, r1: usize, r2: usize,
)
    requires
        totally_monotone(m),
        0 <= c1 < c2 < m.ncols(),
        0 <= lo < hi <= m.nrows(),
        is_min_range(m, c1, lo, hi, r1),
        is_min_range(m, c2, lo, hi, r2),
    ensures
        r1 <= r2,
{
    if r1 > r2 {
        assert(lex_le(m.entry(r1 as int, c1), r1 as int, m.entry(r2 as int, c1), r2 as int));
        assert(tm_pair(m, r2 as int, r1 as int, c1, c2));
        assert(lex_le(m.entry(r2 as int, c2), r2 as int, m.entry(r1 as int, c2), r1 as int));
        assert(false);
    }
}

/// The left-most minimum of a sub-range agrees with the left-most
/// minimum of the whole range whenever the latter falls inside the
/// sub-range.
proof fn lemma_range_min_lift<M: MatrixAccess>(
    m: &M, c: int, lo: int, hi: int, lo2: int, hi2: int, r: usize, rg: usize,
)
    requires
        lo <= lo2 <= hi2 <= hi,
        is_min_range(m, c, lo2, hi2, r),
        is_min_range(m, c, lo, hi, rg),
        lo2 <= rg < hi2,
    ensures
        r == rg,
        is_min_range(m, c, lo, hi, r),
{
    assert(lex_le(m.entry(r as int, c), r as int, m.entry(rg as int, c), rg as int));
    assert(lex_le(m.entry(rg as int, c), rg as int, m.entry(r as int, c), r as int));
}

/// Compute the left-most minima of the columns `col_lo..col_hi` over
/// the candidate rows `row_lo..row_hi`, writing the answer for column
/// `c` into `minima[c]`. The candidate row range must contain the true
/// left-most minimum row of every column in the range.
#[verifier::loop_isolation(false)]
#[verifier::rlimit(100)]
fn recursive_inner<M: MatrixAccess>(
    m: &M, col_lo: usize, col_hi: usize, row_lo: usize, row_hi: usize, minima: &mut Vec<usize>,
)
    requires
        totally_monotone(m),
        col_lo <= col_hi,
        col_hi <= m.ncols(),
        row_lo < row_hi,
        row_hi <= m.nrows(),
        col_hi <= old(minima)@.len(),
        forall |i: int, j: int| 0 <= i < m.nrows() && 0 <= j < m.ncols() ==> m.queryable(i, j),
        forall |c: int| col_lo <= c < col_hi
            ==> #[trigger] has_min_in_range(m, c, row_lo as int, row_hi as int),
    ensures
        final(minima)@.len() == old(minima)@.len(),
        forall |c: int| col_lo <= c < col_hi
            ==> is_min_range(m, c, 0, m.nrows(), #[trigger] final(minima)@[c] as usize),
        forall |j: int| 0 <= j < final(minima)@.len() && !(col_lo <= j < col_hi)
            ==> final(minima)@[j] == old(minima)@[j],
    decreases col_hi - col_lo,
{
    if col_lo == col_hi {
        return;
    }
    let mid = col_lo + (col_hi - col_lo) / 2;
    let min_idx = lane_minimum(m, mid, row_lo, row_hi);
    minima.set(mid, min_idx);
    proof {
        assert(has_min_in_range(m, mid as int, row_lo as int, row_hi as int));
        let rg = choose |rg: usize| #[trigger] is_min_range(m, mid as int, 0, m.nrows(), rg)
            && row_lo <= rg < row_hi;
        lemma_range_min_lift(m, mid as int, 0, m.nrows() as int, row_lo as int, row_hi as int,
            min_idx, rg);
        assert(is_min_range(m, mid as int, 0, m.nrows(), min_idx));
        // Columns left of the middle keep their true minima at or
        // before the middle's minimum row; columns right of it at or
        // after.
        assert forall |c: int| col_lo <= c < mid
            implies #[trigger] has_min_in_range(m, c, row_lo as int, min_idx + 1) by {
            assert(has_min_in_range(m, c, row_lo as int, row_hi as int));
            let rg2 = choose |rg2: usize| #[trigger] is_min_range(m, c, 0, m.nrows(), rg2)
                && row_lo <= rg2 < row_hi;
            lemma_range_argmin_monotone(m, 0, m.nrows() as int, c, mid as int, rg2, min_idx);
            assert(is_min_range(m, c, 0, m.nrows(), rg2) && row_lo <= rg2 < min_idx + 1);
        }
        assert forall |c: int| mid + 1 <= c < col_hi
            implies #[trigger] has_min_in_range(m, c, min_idx as int, row_hi as int) by {
            assert(has_min_in_range(m, c, row_lo as int, row_hi as int));
            let rg2 = choose |rg2: usize| #[trigger] is_min_range(m, c, 0, m.nrows(), rg2)
                && row_lo <= rg2 < row_hi;
            lemma_range_argmin_monotone(m, 0, m.nrows() as int, mid as int, c, min_idx, rg2);
            assert(is_min_range(m, c, 0, m.nrows(), rg2) && min_idx <= rg2 < row_hi);
        }
    }
    if col_lo < mid {
        recursive_inner(m, col_lo, mid, row_lo, min_idx + 1, minima);
    }
    if mid + 1 < col_hi {
        recursive_inner(m, mid + 1, col_hi, min_idx, row_hi, minima);
    }
}

/// Compute column minima by divide and conquer.
///
/// `result[j]` is the row of the left-most minimum value in column
/// `j`. The matrix must be totally monotone; no runtime check is made
/// and the result is unspecified when the precondition is violated. A
/// matrix with zero rows is rejected with [`MinimaError::EmptyInput`].
pub fn recursive_column_minima(matrix: &IntMatrix) -> (result: Result<Vec<usize>, MinimaError>)
    requires
        matrix.wf(),
        totally_monotone(matrix),
    ensures
        (match result {
            Ok(v) => {
                &&& matrix.nrows() >= 1
                &&& v@.len() == matrix.ncols()
                &&& forall |j: int| 0 <= j < matrix.ncols() ==> is_col_min(matrix, j, #[trigger] v@[j] as int)
            },
            Err(e) => e == MinimaError::EmptyInput && matrix.nrows() == 0,
        }),
{
    if matrix.rows() == 0 {
        return Err(MinimaError::EmptyInput);
    }
    let nr = matrix.rows();
    let mut minima = crate::smawk::zero_vec(matrix.cols());
    proof {
        assert(matrix.nrows() == nr as int);
        assert forall |c: int| 0 <= c < matrix.ncols()
            implies #[trigger] has_min_in_range(matrix, c, 0, matrix.nrows() as int) by {
            let rg = lemma_range_min_exists(matrix, c, 0, matrix.nrows() as int);
            assert(is_min_range(matrix, c, 0, matrix.nrows(), rg) && 0 <= rg < matrix.nrows());
        }
    }
    recursive_inner(matrix, 0, matrix.cols(), 0, matrix.rows(), &mut minima);
    Ok(minima)
}

/// Compute row minima by divide and conquer.
///
/// `result[i]` is the column of the left-most minimum value in row
/// `i`. The matrix must be totally monotone; no runtime check is made
/// and the result is unspecified when the precondition is violated. A
/// matrix with zero columns is rejected with [`MinimaError::EmptyInput`].
pub fn recursive_row_minima(matrix: &IntMatrix) -> (result: Result<Vec<usize>, MinimaError>)
    requires
        matrix.wf(),
        totally_monotone_rowwise(matrix),
    ensures
        (match result {
            Ok(v) => {
                &&& matrix.ncols() >= 1
                &&& v@.len() == matrix.nrows()
                &&& forall |i: int| 0 <= i < matrix.nrows() ==> is_row_min(matrix, i, #[trigger] v@[i] as int)
            },
            Err(e) => e == MinimaError::EmptyInput && matrix.ncols() == 0,
        }),
{
    if matrix.cols() == 0 {
        return Err(MinimaError::EmptyInput);
    }
    let t = Transposed { m: matrix };
    let nc = matrix.cols();
    let mut minima = crate::smawk::zero_vec(matrix.rows());
    proof {
        assert(t.nrows() == nc as int);
        // The transposed view turns row-wise total monotonicity into
        // the column-minima form that the recursion works with.
        assert forall |r1: int, r2: int, c1: int, c2: int|
            0 <= r1 < r2 < t.nrows() && 0 <= c1 < c2 < t.ncols()
            implies #[trigger] tm_pair(&t, r1, r2, c1, c2) by {
            assert(tm_pair_rowwise(matrix, c1, c2, r1, r2));
            assert(matrix.entry(c1, r1) == t.entry(r1, c1));
            assert(matrix.entry(c1, r2) == t.entry(r2, c1));
            assert(matrix.entry(c2, r1) == t.entry(r1, c2));
            assert(matrix.entry(c2, r2) == t.entry(r2, c2));
        }
        assert(totally_monotone(&t));
        assert forall |c: int| 0 <= c < t.ncols()
            implies #[trigger] has_min_in_range(&t, c, 0, t.nrows() as int) by {
            let rg = lemma_range_min_exists(&t, c, 0, t.nrows() as int);
            assert(is_min_range(&t, c, 0, t.nrows(), rg) && 0 <= rg < t.nrows());
        }
    }
    recursive_inner(&t, 0, matrix.rows(), 0, matrix.cols(), &mut minima);
    proof {
        assert forall |i: int| 0 <= i < matrix.nrows()
            implies is_row_min(matrix, i, #[trigger] minima@[i] as int) by {
            assert(is_min_range(&t, i, 0, t.nrows(), minima@[i] as usize));
            assert forall |c2: int| 0 <= c2 < matrix.ncols()
                implies lex_le(matrix.entry(i, minima@[i] as int), minima@[i] as int,
                    #[trigger] matrix.entry(i, c2), c2) by {
                assert(lex_le(t.entry(minima@[i] as int, i), minima@[i] as int,
                    t.entry(c2, i), c2));
                assert(t.entry(c2, i) == matrix.entry(i, c2));
            }
        }
    }
    Ok(minima)
}

} // verus!
