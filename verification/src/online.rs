//! The online column-minima engine.
//!
//! For a totally monotone matrix whose entries may only be queried
//! strictly above the diagonal, and only once the column minima of all
//! earlier rows are final, this engine resolves `v(j) = min { M[i, j] |
//! i < j }` one column at a time, with `v(0)` fixed by the caller. The
//! accessor receives the already-final prefix of the result, so a
//! lazily generated matrix (a dynamic program whose costs depend on
//! earlier minima) can be used.

use vstd::prelude::*;

use crate::matrix::{IntMatrix, MatrixAccess, is_min_in, lex_le, tm_on, tm_pair};
use crate::smawk::{smawk_inner, zero_vec};

verus! {

/// A square matrix queried strictly above its diagonal, possibly
/// generated lazily from the already-resolved column minima.
pub trait OnlineMatrix: Sized {
    /// Number of rows and of columns.
    spec fn size(&self) -> int;

    /// The mathematical value stored at `(i, j)`, meaningful for
    /// `i < j`.
    spec fn value(&self, i: int, j: int) -> int;

    /// Read the value at `(i, j)`, strictly above the diagonal. The
    /// engine hands over the result prefix it has already finalized:
    /// `done[k]` is the final minimum pair of column `k` for every `k`
    /// up to `finished`, and `i <= finished`, so the implementation may
    /// derive the entry from those earlier minima.
    fn get(&self, done: &Vec<(usize, i64)>, finished: usize, i: usize, j: usize) -> (v: i64)
        requires
            i < j,
            (j as int) < self.size(),
            i <= finished,
            (finished as int) < done@.len(),
            done@[0].0 == 0,
            forall |k: int| 1 <= k <= finished
                ==> ((#[trigger] done@[k]).0 as int) < k
                    && (done@[k].1 as int) == self.value(done@[k].0 as int, k)
                    && (forall |i2: int| 0 <= i2 < k
                        ==> ((done@[k].1 as int) < (#[trigger] self.value(i2, k))
                            || ((done@[k].1 as int) == self.value(i2, k)
                                && (done@[k].0 as int) <= i2))),
        ensures
            v as int == self.value(i as int, j as int),
    ;
}

/// The pair holds an actual above-diagonal entry of column `j`.
pub open spec fn pair_valid<M: OnlineMatrix>(m: &M, j: int, p: (usize, i64)) -> bool {
    &&& (p.0 as int) < j
    &&& (p.1 as int) == m.value(p.0 as int, j)
}

/// The pair is the left-most minimum of column `j` strictly above the
/// diagonal.
pub open spec fn is_above_min<M: OnlineMatrix>(m: &M, j: int, p: (usize, i64)) -> bool {
    &&& pair_valid(m, j, p)
    &&& forall |i: int| 0 <= i < j
            ==> lex_le(p.1 as int, p.0 as int, #[trigger] m.value(i, j), i)
}

/// The total-monotonicity implication for one quadruple lying strictly
/// above the diagonal.
pub open spec fn tm_above_pair<M: OnlineMatrix>(m: &M, r1: int, r2: int, c1: int, c2: int) -> bool {
    m.value(r1, c1) > m.value(r2, c1) ==> m.value(r1, c2) > m.value(r2, c2)
}

/// The matrix is totally monotone on the region strictly above the
/// diagonal.
pub open spec fn tm_above<M: OnlineMatrix>(m: &M) -> bool {
    forall |r1: int, r2: int, c1: int, c2: int|
        0 <= r1 < r2 < c1 < c2 < m.size() ==> #[trigger] tm_above_pair(m, r1, r2, c1, c2)
}

/// A materialized square matrix is its own online source: the entries
/// do not depend on the resolved prefix at all.
impl OnlineMatrix for IntMatrix {
    closed spec fn size(&self) -> int {
        if self.wf() && self.nrows() == self.ncols() {
            self.nrows()
        } else {
            0
        }
    }

    closed spec fn value(&self, i: int, j: int) -> int {
        MatrixAccess::entry(self, i, j)
    }

    fn get(&self, done: &Vec<(usize, i64)>, finished: usize, i: usize, j: usize) -> (v: i64)
    {
        MatrixAccess::get(self, i, j)
    }
}

/// A view of the rows up to `finished` and the columns beyond it, the
/// square block on which the engine runs the SMAWK reduction.
struct DiagBlock<'a, M: OnlineMatrix> {
    m: &'a M,
    done: &'a Vec<(usize, i64)>,
    finished: usize,
}

impl<'a, M: OnlineMatrix> MatrixAccess for DiagBlock<'a, M> {
    closed spec fn nrows(&self) -> int {
        self.m.size()
    }

    closed spec fn ncols(&self) -> int {
        self.m.size()
    }

    closed spec fn entry(&self, i: int, j: int) -> int {
        self.m.value(i, j)
    }

    closed spec fn queryable(&self, i: int, j: int) -> bool {
        &&& i < j
        &&& i <= self.finished
        &&& (self.finished as int) < self.done@.len()
        &&& self.done@[0].0 == 0
        &&& forall |k: int| 1 <= k <= self.finished
                ==> is_above_min(self.m, k, #[trigger] self.done@[k])
    }

    fn get(&self, i: usize, j: usize) -> (v: i64)
    {
        self.m.get(self.done, self.finished, i, j)
    }
}

/// The list `lo, lo + 1, ..., hi` of candidate indices.
fn span_vec(lo: usize, hi: usize) -> (v: Vec<usize>)
    requires
        lo <= hi,
        hi < usize::MAX,
    ensures
        v@.len() == hi + 1 - lo,
        forall |k: int| 0 <= k < v@.len() ==> #[trigger] v@[k] == lo + k,
{
    let mut v: Vec<usize> = Vec::new();
    let mut i: usize = lo;
    while i <= hi
        invariant
            lo <= i <= hi + 1,
            hi < usize::MAX,
            v@.len() == i - lo,
            forall |k: int| 0 <= k < v@.len() ==> #[trigger] v@[k] == lo + k,
        decreases hi + 1 - i,
    {
        v.push(i);
        i += 1;
    }
    v
}

/// Compute the column minima strictly above the diagonal of a totally
/// monotone square matrix, one column at a time.
///
/// Entry `result[j]` is the pair `(r(j), M[r(j), j])` where `r(j)` is
/// the left-most row with the minimum value of `{ M[i, j] | i < j }`;
/// `result[0]` is `(0, initial)`, fixed by the caller. The matrix must
/// be totally monotone above the diagonal; no runtime check is made
/// and the result is unspecified when that precondition is violated.
#[verifier::loop_isolation(false)]
#[verifier::rlimit(100)]
pub fn online_column_minima<M: OnlineMatrix>(
    initial: i64, size: usize, matrix: &M,
) -> (result: Vec<(usize, i64)>)
    requires
        1 <= size,
        matrix.size() == size,
        tm_above(matrix),
    ensures
        result@.len() == size,
        result@[0] == (0usize, initial),
        forall |j: int| 1 <= j < size ==> is_above_min(matrix, j, #[trigger] result@[j]),
{
    let mut result: Vec<(usize, i64)> = Vec::new();
    result.push((0, initial));

    let mut finished: usize = 0;
    let mut base: usize = 0;
    let mut tentative: usize = 0;

    while finished < size - 1
        invariant
            0 <= base <= finished <= tentative <= size - 1,
            tentative < result@.len() <= size,
            result@[0] == (0usize, initial),
            forall |j: int| 1 <= j <= finished
                ==> is_above_min(matrix, j, #[trigger] result@[j]),
            forall |j: int| finished < j <= tentative
                ==> pair_valid(matrix, j, #[trigger] result@[j])
                    && (result@[j].0 as int) < finished
                    && (forall |i2: int| 0 <= i2 < finished
                        ==> lex_le(result@[j].1 as int, result@[j].0 as int,
                            #[trigger] matrix.value(i2, j), i2)),
            forall |j: int| tentative < j < result@.len()
                ==> pair_valid(matrix, j, #[trigger] result@[j])
                    && (result@[j].0 as int) < base
                    && (forall |i2: int| 0 <= i2 < base
                        ==> lex_le(result@[j].1 as int, result@[j].0 as int,
                                #[trigger] matrix.value(i2, j), i2)
                            || matrix.value(base as int, j) < matrix.value(i2, j)),
            forall |j: int, i2: int| result@.len() <= j < size && 0 <= i2 < base
                ==> #[trigger] matrix.value(base as int, j) < #[trigger] matrix.value(i2, j),
        decreases size - finished,
    {
        let i = finished + 1;

        if i > tentative {
            // First case: no provisional answer yet for column i. Run
            // the SMAWK reduction on the largest square block that
            // fits under the base and merge its column minima into the
            // provisional results.
            let rows_len = finished + 1 - base;
            let new_tentative = if rows_len >= size - 1 - finished {
                size - 1
            } else {
                finished + rows_len
            };
            let rows = span_vec(base, finished);
            let cols = span_vec(finished + 1, new_tentative);
            let mut minima = zero_vec(new_tentative + 1);
            let view = DiagBlock { m: matrix, done: &result, finished };
            proof {
                assert forall |r: usize, c: usize| #![trigger rows@.contains(r), cols@.contains(c)]
                    rows@.contains(r) && cols@.contains(c)
                    implies r < view.nrows() && c < view.ncols()
                        && view.queryable(r as int, c as int) by {
                    let q1 = choose |q: int| 0 <= q < rows@.len() && rows@[q] == r;
                    let q2 = choose |q: int| 0 <= q < cols@.len() && cols@[q] == c;
                    assert(r == base + q1 && c == finished + 1 + q2);
                }
                assert forall |r1: usize, r2: usize, c1: usize, c2: usize|
                    rows@.contains(r1) && rows@.contains(r2) && cols@.contains(c1)
                        && cols@.contains(c2) && r1 < r2 && c1 < c2
                    implies #[trigger] tm_pair(&view, r1 as int, r2 as int, c1 as int, c2 as int) by {
                    let q1 = choose |q: int| 0 <= q < rows@.len() && rows@[q] == r1;
                    let q2 = choose |q: int| 0 <= q < rows@.len() && rows@[q] == r2;
                    let q3 = choose |q: int| 0 <= q < cols@.len() && cols@[q] == c1;
                    let q4 = choose |q: int| 0 <= q < cols@.len() && cols@[q] == c2;
                    assert(r2 < c1);
                    assert(tm_above_pair(matrix, r1 as int, r2 as int, c1 as int, c2 as int));
                }
                assert(tm_on(&view, rows@, cols@));
                assert forall |k: int| 0 <= k < rows@.len()
                    implies #[trigger] rows@[k] < view.nrows() by {
                }
                assert forall |k: int| 0 <= k < cols@.len()
                    implies #[trigger] cols@[k] < view.ncols() by {
                }
            }
            smawk_inner(&view, &rows, &cols, &mut minima);
            proof {
                // Restate the reduction's answers over the underlying
                // matrix so that the borrow of the result vector can
                // end here.
                assert forall |k: int| 0 <= k < cols@.len()
                    implies rows@.contains(#[trigger] minima@[cols@[k] as int]) by {
                    assert(is_min_in(&view, rows@, cols@[k] as int, minima@[cols@[k] as int]));
                }
                assert forall |k: int, q: int| 0 <= k < cols@.len() && 0 <= q < rows@.len()
                    implies lex_le(
                        matrix.value(minima@[cols@[k] as int] as int, cols@[k] as int),
                        minima@[cols@[k] as int] as int,
                        matrix.value(#[trigger] rows@[q] as int, #[trigger] cols@[k] as int),
                        rows@[q] as int) by {
                    assert(is_min_in(&view, rows@, cols@[k] as int, minima@[cols@[k] as int]));
                    assert(rows@.contains(rows@[q]));
                    crate::matrix::lemma_min_le(&view, rows@, cols@[k] as int,
                        minima@[cols@[k] as int], rows@[q]);
                }
            }

            // Merge: overwrite a provisional answer only when the new
            // block's minimum is strictly smaller; append answers for
            // columns seen for the first time.
            let ghost old_result = result@;
            let mut col = finished + 1;
            while col <= new_tentative
                invariant
                    finished + 1 <= col <= new_tentative + 1,
                    finished < new_tentative <= size - 1,
                    base <= finished,
                    rows@.len() == finished + 1 - base,
                    forall |k: int| 0 <= k < rows@.len() ==> #[trigger] rows@[k] == base + k,
                    cols@.len() == new_tentative - finished,
                    forall |k: int| 0 <= k < cols@.len() ==> #[trigger] cols@[k] == finished + 1 + k,
                    minima@.len() == new_tentative + 1,
                    forall |k: int| 0 <= k < cols@.len()
                        ==> rows@.contains(#[trigger] minima@[cols@[k] as int]),
                    forall |k: int, q: int| 0 <= k < cols@.len() && 0 <= q < rows@.len()
                        ==> lex_le(
                            matrix.value(minima@[cols@[k] as int] as int, cols@[k] as int),
                            minima@[cols@[k] as int] as int,
                            matrix.value(#[trigger] rows@[q] as int, #[trigger] cols@[k] as int),
                            rows@[q] as int),
                    old_result.len() > tentative,
                    result@.len() == (if old_result.len() >= col { old_result.len() as int } else { col as int }),
                    result@.len() <= size,
                    forall |j: int| 0 <= j < result@.len() && (j < finished + 1 || col <= j)
                            && j < old_result.len()
                        ==> #[trigger] result@[j] == old_result[j],
                    forall |j: int| finished + 1 <= j < col
                        ==> pair_valid(matrix, j, #[trigger] result@[j])
                            && (result@[j].0 as int) < finished + 1
                            && (forall |i2: int| 0 <= i2 < finished + 1
                                ==> lex_le(result@[j].1 as int, result@[j].0 as int,
                                    #[trigger] matrix.value(i2, j), i2)),
                decreases new_tentative + 1 - col,
            {
                let row = minima[col];
                proof {
                    assert(cols@[col - (finished + 1)] == col);
                    assert(rows@.contains(row));
                    let q = choose |q: int| 0 <= q < rows@.len() && rows@[q] == row;
                    assert(row == base + q);
                }
                let v = matrix.get(&result, finished, row, col);
                let ghost pre = result@;
                if col >= result.len() {
                    result.push((row, v));
                } else if v < result[col].1 {
                    result.set(col, (row, v));
                }
                proof {
                    let p = result@[col as int];
                    let ghost vs = v as int;
                    // The merged pair beats every row up to `finished`.
                    let ghost kc = col - (finished + 1);
                    assert(cols@[kc] == col);
                    assert forall |i2: int| 0 <= i2 < finished + 1
                        implies lex_le(p.1 as int, p.0 as int,
                            #[trigger] matrix.value(i2, col as int), i2) by {
                        let ghost iu = i2 as usize;
                        if base <= i2 {
                            assert(rows@[i2 - base] == iu);
                            assert(lex_le(matrix.value(row as int, col as int), row as int,
                                matrix.value(iu as int, col as int), iu as int));
                        } else {
                            // i2 < base: the old entry beats it or the
                            // base row strictly beats it.
                            assert(rows@[0] == base);
                            assert(lex_le(matrix.value(row as int, col as int), row as int,
                                matrix.value(base as int, col as int), base as int));
                            if col < pre.len() {
                                assert(pre[col as int] == old_result[col as int]);
                                if !lex_le(old_result[col as int].1 as int,
                                        old_result[col as int].0 as int,
                                        matrix.value(i2, col as int), i2) {
                                    assert(matrix.value(base as int, col as int)
                                        < matrix.value(i2, col as int));
                                }
                            } else {
                                assert(matrix.value(base as int, col as int)
                                    < matrix.value(i2, col as int));
                            }
                        }
                    }
                    assert(pair_valid(matrix, col as int, p));
                    assert((p.0 as int) < finished + 1) by {
                        if col < pre.len() && !(vs < pre[col as int].1 as int) {
                            assert(p == old_result[col as int]);
                        }
                    }
                }
                col += 1;
            }
            proof {
                // Columns past the merged range keep their stale
                // entries, and the base has not moved.
                assert forall |j: int| new_tentative < j < result@.len()
                    implies pair_valid(matrix, j, #[trigger] result@[j])
                        && (result@[j].0 as int) < base
                        && (forall |i2: int| 0 <= i2 < base
                            ==> lex_le(result@[j].1 as int, result@[j].0 as int,
                                    #[trigger] matrix.value(i2, j), i2)
                                || matrix.value(base as int, j) < matrix.value(i2, j)) by {
                    assert(result@[j] == old_result[j]);
                }
            }
            tentative = new_tentative;
            finished = i;
            continue;
        }

        // Second case: the new column minimum is on the diagonal. All
        // later columns prefer rows at or below it, so the rows above
        // can be dropped from the base.
        let diag = matrix.get(&result, finished, i - 1, i);
        if diag < result[i].1 {
            result.set(i, (i - 1, diag));
            proof {
                assert forall |j: int, i2: int| i < j < size && 0 <= i2 < i - 1
                    implies #[trigger] matrix.value(i as int - 1, j)
                        < #[trigger] matrix.value(i2, j) by {
                    assert(lex_le(result@[i as int].1 as int, i as int - 1,
                        matrix.value(i2, i as int), i2));
                    assert(matrix.value(i2, i as int) > matrix.value(i as int - 1, i as int));
                    assert(tm_above_pair(matrix, i2, i as int - 1, i as int, j));
                }
            }
            base = i - 1;
            tentative = i;
            finished = i;
            continue;
        }

        // Third case: row i - 1 is no better than the provisional
        // answer of the tentative column, so by total monotonicity it
        // cannot help any pending column; just advance.
        let probe = matrix.get(&result, finished, i - 1, tentative);
        if probe >= result[tentative].1 {
            proof {
                let rstar = result@[tentative as int].0 as int;
                assert forall |j: int| finished + 1 <= j <= tentative
                    implies lex_le(result@[j].1 as int, result@[j].0 as int,
                        #[trigger] matrix.value(i as int - 1, j), i as int - 1) by {
                    let pj = result@[j];
                    let rj = result@[tentative as int];
                    if j < tentative {
                        // Bring the defeat at the tentative column back
                        // to column j.
                        assert(tm_above_pair(matrix, rstar, i as int - 1, j, tentative as int));
                        assert(matrix.value(rstar, j) <= matrix.value(i as int - 1, j));
                        assert(lex_le(pj.1 as int, pj.0 as int, matrix.value(rstar, j), rstar));
                    } else {
                        assert(matrix.value(rstar, j) <= matrix.value(i as int - 1, j));
                        assert(lex_le(pj.1 as int, pj.0 as int, matrix.value(rstar, j), rstar));
                    }
                }
            }
            finished = i;
            continue;
        }

        // Fourth case: row i - 1 improves the tentative column, so a
        // new minimum appears there and every row before i - 1 becomes
        // irrelevant for all later columns.
        proof {
            assert forall |j: int, i2: int| tentative < j < size && 0 <= i2 < i - 1
                implies #[trigger] matrix.value(i as int - 1, j)
                    < #[trigger] matrix.value(i2, j) by {
                assert(lex_le(result@[tentative as int].1 as int,
                    result@[tentative as int].0 as int,
                    matrix.value(i2, tentative as int), i2));
                assert(matrix.value(i2, tentative as int)
                    > matrix.value(i as int - 1, tentative as int));
                assert(tm_above_pair(matrix, i2, i as int - 1, tentative as int, j));
            }
            assert(is_above_min(matrix, i as int, result@[i as int])) by {
                assert(lex_le(result@[i as int].1 as int, result@[i as int].0 as int,
                    matrix.value(i as int - 1, i as int), i as int - 1));
            }
        }
        base = i - 1;
        tentative = i;
        finished = i;
    }
    result
}

} // verus!
