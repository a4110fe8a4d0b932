//! The SMAWK reduce-and-conquer algorithm: all row or column minima of
//! a totally monotone matrix in time proportional to the number of
//! lanes, not to the matrix area.
//!
//! Total monotonicity is a hard precondition. The algorithm performs
//! no runtime check of it and silently returns wrong indices when it
//! is violated; callers that cannot guarantee it by construction
//! should run the Monge verifier first.

use vstd::prelude::*;

use crate::matrix::{
    IntMatrix, MatrixAccess, Transposed, is_col_min, is_row_min, is_min_in, lex_le,
    lemma_argmin_monotone, lemma_min_exists, lemma_min_le, lemma_tm_full,
    strictly_sorted, tm_on, tm_pair, tm_pair_rowwise, totally_monotone,
    totally_monotone_rowwise, valid_pairs,
};
use crate::MinimaError;

verus! {

/// The elimination-stack order: each surviving row is at least as good
/// as its successor in the column positionally aligned with it.
pub open spec fn chain_ok<M: MatrixAccess>(m: &M, stack: Seq<usize>, cols: Seq<usize>) -> bool {
    forall |k: int| 1 <= k < stack.len()
        ==> m.entry(stack[k - 1] as int, cols[k - 1] as int)
            <= m.entry(#[trigger] stack[k] as int, cols[k - 1] as int)
}

/// A stack entry is dominated, in its aligned column and in every
/// earlier one, by the entries below it: the entry at position `k` can
/// only be a left-most lane minimum in columns aligned at `k` or
/// later.
proof fn lemma_chain_dominance<M: MatrixAccess>(
    m: &M, rows: Seq<usize>, cols: Seq<usize>, stack: Seq<usize>, l: int, k: int,
)
    requires
        tm_on(m, rows, cols),
        strictly_sorted(stack),
        strictly_sorted(cols),
        forall |q: int| 0 <= q < stack.len() ==> rows.contains(#[trigger] stack[q]),
        stack.len() <= cols.len(),
        chain_ok(m, stack, cols),
        0 <= l <= k < stack.len(),
    ensures
        m.entry(stack[l] as int, cols[l] as int) <= m.entry(stack[k] as int, cols[l] as int),
    decreases k - l,
{
    if k > l {
        lemma_chain_dominance(m, rows, cols, stack, l, k - 1);
        assert(m.entry(stack[k - 1] as int, cols[k - 1] as int)
            <= m.entry(stack[k] as int, cols[k - 1] as int));
        if l < k - 1 {
            assert(cols.contains(cols[l]));
            assert(cols.contains(cols[k - 1]));
            assert(rows.contains(stack[k - 1]));
            assert(rows.contains(stack[k]));
            assert(tm_pair(m, stack[k - 1] as int, stack[k] as int, cols[l] as int, cols[k - 1] as int));
        }
    }
}

/// A popped row is never the left-most minimum of a candidate column:
/// the current row beats it from its aligned column rightward, and the
/// rows below it in the stack beat it leftward.
proof fn lemma_popped_not_min<M: MatrixAccess>(
    m: &M, rows: Seq<usize>, cols: Seq<usize>, stack: Seq<usize>, rc: usize,
)
    requires
        tm_on(m, rows, cols),
        strictly_sorted(stack),
        strictly_sorted(cols),
        forall |q: int| 0 <= q < stack.len() ==> rows.contains(#[trigger] stack[q]),
        0 < stack.len() <= cols.len(),
        chain_ok(m, stack, cols),
        rows.contains(rc),
        forall |q: int| 0 <= q < stack.len() ==> #[trigger] stack[q] < rc,
        m.entry(stack[stack.len() - 1] as int, cols[stack.len() - 1] as int)
            > m.entry(rc as int, cols[stack.len() - 1] as int),
    ensures
        forall |l: int| 0 <= l < cols.len()
            ==> !is_min_in(m, rows, #[trigger] cols[l] as int, stack[stack.len() - 1]),
{
    let ls = stack.len() as int;
    let p = stack[ls - 1];
    assert forall |l: int| 0 <= l < cols.len()
        implies !is_min_in(m, rows, #[trigger] cols[l] as int, p) by {
        if is_min_in(m, rows, cols[l] as int, p) {
            if l < ls - 1 {
                lemma_chain_dominance(m, rows, cols, stack, l, ls - 1);
                assert(stack[l] < p);
                lemma_min_le(m, rows, cols[l] as int, p, stack[l]);
                assert(false);
            } else {
                assert(cols.contains(cols[ls - 1]));
                assert(cols.contains(cols[l]));
                assert(rows.contains(p));
                if l > ls - 1 {
                    assert(tm_pair(m, p as int, rc as int, cols[ls - 1] as int, cols[l] as int));
                }
                assert(m.entry(p as int, cols[l] as int) > m.entry(rc as int, cols[l] as int));
                lemma_min_le(m, rows, cols[l] as int, p, rc);
                assert(false);
            }
        }
    }
}

/// When the stack is already full, a row that fails the pop test is
/// itself never a left-most minimum: in every candidate column some
/// stack entry is at least as good and lies in an earlier row.
proof fn lemma_skipped_not_min<M: MatrixAccess>(
    m: &M, rows: Seq<usize>, cols: Seq<usize>, stack: Seq<usize>, rc: usize,
)
    requires
        tm_on(m, rows, cols),
        strictly_sorted(stack),
        strictly_sorted(cols),
        forall |q: int| 0 <= q < stack.len() ==> rows.contains(#[trigger] stack[q]),
        stack.len() == cols.len(),
        0 < stack.len(),
        chain_ok(m, stack, cols),
        rows.contains(rc),
        forall |q: int| 0 <= q < stack.len() ==> #[trigger] stack[q] < rc,
        m.entry(stack[stack.len() - 1] as int, cols[stack.len() - 1] as int)
            <= m.entry(rc as int, cols[stack.len() - 1] as int),
    ensures
        forall |l: int| 0 <= l < cols.len() ==> !is_min_in(m, rows, #[trigger] cols[l] as int, rc),
{
    let ls = stack.len() as int;
    assert forall |l: int| 0 <= l < cols.len()
        implies !is_min_in(m, rows, #[trigger] cols[l] as int, rc) by {
        if is_min_in(m, rows, cols[l] as int, rc) {
            assert(rows.contains(stack[ls - 1]));
            assert(cols.contains(cols[l]));
            assert(cols.contains(cols[ls - 1]));
            if l < ls - 1 {
                assert(tm_pair(m, stack[ls - 1] as int, rc as int,
                    cols[l] as int, cols[ls - 1] as int));
                lemma_chain_dominance(m, rows, cols, stack, l, ls - 1);
            }
            assert(m.entry(stack[l] as int, cols[l] as int)
                <= m.entry(rc as int, cols[l] as int));
            assert(stack[l] < rc);
            lemma_min_le(m, rows, cols[l] as int, rc, stack[l]);
            assert(false);
        }
    }
}

/// Candidate facts pass down to sublists of the candidate rows and
/// columns.
proof fn lemma_restrict<M: MatrixAccess>(
    m: &M, rows: Seq<usize>, cols: Seq<usize>, rows2: Seq<usize>, cols2: Seq<usize>,
)
    requires
        valid_pairs(m, rows, cols),
        tm_on(m, rows, cols),
        forall |k: int| 0 <= k < rows.len() ==> #[trigger] rows[k] < m.nrows(),
        forall |k: int| 0 <= k < cols.len() ==> #[trigger] cols[k] < m.ncols(),
        forall |q: int| 0 <= q < rows2.len() ==> rows.contains(#[trigger] rows2[q]),
        forall |q: int| 0 <= q < cols2.len() ==> cols.contains(#[trigger] cols2[q]),
    ensures
        valid_pairs(m, rows2, cols2),
        tm_on(m, rows2, cols2),
        forall |k: int| 0 <= k < rows2.len() ==> #[trigger] rows2[k] < m.nrows(),
        forall |k: int| 0 <= k < cols2.len() ==> #[trigger] cols2[k] < m.ncols(),
{
    assert forall |x: usize| rows2.contains(x) implies rows.contains(x) by {
        let q = choose |q: int| 0 <= q < rows2.len() && rows2[q] == x;
    }
    assert forall |x: usize| cols2.contains(x) implies cols.contains(x) by {
        let q = choose |q: int| 0 <= q < cols2.len() && cols2[q] == x;
    }
    assert forall |r2: usize, c2: usize| #![trigger rows2.contains(r2), cols2.contains(c2)]
        rows2.contains(r2) && cols2.contains(c2)
        implies r2 < m.nrows() && c2 < m.ncols() && m.queryable(r2 as int, c2 as int) by {
        assert(rows.contains(r2));
        assert(cols.contains(c2));
    }
    assert forall |r1: usize, r2: usize, c1: usize, c2: usize|
        rows2.contains(r1) && rows2.contains(r2) && cols2.contains(c1) && cols2.contains(c2)
            && r1 < r2 && c1 < c2
        implies #[trigger] tm_pair(m, r1 as int, r2 as int, c1 as int, c2 as int) by {
        assert(rows.contains(r1));
        assert(rows.contains(r2));
        assert(cols.contains(c1));
        assert(cols.contains(c2));
    }
    assert forall |k: int| 0 <= k < rows2.len() implies #[trigger] rows2[k] < m.nrows() by {
        assert(rows.contains(rows2[k]));
        let q = choose |q: int| 0 <= q < rows.len() && rows[q] == rows2[k];
    }
    assert forall |k: int| 0 <= k < cols2.len() implies #[trigger] cols2[k] < m.ncols() by {
        assert(cols.contains(cols2[k]));
        let q = choose |q: int| 0 <= q < cols.len() && cols[q] == cols2[k];
    }
}

/// Answers over the surviving rows are answers over all candidate
/// rows, because no discarded row was ever a left-most lane minimum.
proof fn lemma_lift_minima<M: MatrixAccess>(
    m: &M, rows: Seq<usize>, cols: Seq<usize>, stack: Seq<usize>, minima: Seq<usize>,
)
    requires
        rows.len() > 0,
        forall |q: int| 0 <= q < stack.len() ==> rows.contains(#[trigger] stack[q]),
        forall |l: int, rb: usize|
            0 <= l < cols.len() && #[trigger] is_min_in(m, rows, cols[l] as int, rb)
                ==> stack.contains(rb),
        forall |k: int| 0 <= k < cols.len() ==> #[trigger] cols[k] < minima.len(),
        forall |k: int| 0 <= k < cols.len()
            ==> is_min_in(m, stack, #[trigger] cols[k] as int, minima[cols[k] as int]),
    ensures
        forall |k: int| 0 <= k < cols.len()
            ==> is_min_in(m, rows, #[trigger] cols[k] as int, minima[cols[k] as int]),
{
    assert forall |k: int| 0 <= k < cols.len()
        implies is_min_in(m, rows, #[trigger] cols[k] as int, minima[cols[k] as int]) by {
        let c = cols[k] as int;
        let a = minima[cols[k] as int];
        assert(is_min_in(m, stack, c, a));
        let rb = lemma_min_exists(m, rows, c);
        assert(stack.contains(rb));
        lemma_min_le(m, stack, c, a, rb);
        let kq = choose |kq: int| 0 <= kq < stack.len() && stack[kq] == a;
        assert(rows.contains(a));
        lemma_min_le(m, rows, c, rb, a);
        assert(a == rb);
    }
}

/// Decide whether the top of the elimination stack loses to row `r` in
/// the column aligned with the top position.
fn pop_needed<M: MatrixAccess>(matrix: &M, stack: &Vec<usize>, cols: &Vec<usize>, r: usize) -> (b: bool)
    requires
        stack@.len() <= cols@.len(),
        forall |k: int| 0 <= k < stack@.len() ==> #[trigger] stack@[k] < matrix.nrows(),
        forall |k: int| 0 <= k < cols@.len() ==> #[trigger] cols@[k] < matrix.ncols(),
        r < matrix.nrows(),
        forall |k: int| 0 <= k < stack@.len()
            ==> matrix.queryable(#[trigger] stack@[k] as int, cols@[k] as int),
        forall |k: int| 0 <= k < stack@.len() ==> matrix.queryable(r as int, #[trigger] cols@[k] as int),
    ensures
        b == (stack@.len() > 0
            && matrix.entry(stack@[stack@.len() - 1] as int, cols@[stack@.len() - 1] as int)
                > matrix.entry(r as int, cols@[stack@.len() - 1] as int)),
{
    if stack.len() == 0 {
        return false;
    }
    let k = stack.len() - 1;
    let top_v = matrix.get(stack[k], cols[k]);
    let new_v = matrix.get(r, cols[k]);
    top_v > new_v
}

/// Reduce phase of SMAWK: scan the candidate rows once, maintaining a
/// stack of rows still alive, and return the survivors. At most one
/// row per candidate column survives, and every left-most column
/// minimum is among the survivors.
#[verifier::loop_isolation(false)]
#[verifier::rlimit(100)]
fn smawk_reduce<M: MatrixAccess>(matrix: &M, rows: &Vec<usize>, cols: &Vec<usize>) -> (stack: Vec<usize>)
    requires
        strictly_sorted(rows@),
        strictly_sorted(cols@),
        forall |k: int| 0 <= k < rows@.len() ==> #[trigger] rows@[k] < matrix.nrows(),
        forall |k: int| 0 <= k < cols@.len() ==> #[trigger] cols@[k] < matrix.ncols(),
        valid_pairs(matrix, rows@, cols@),
        tm_on(matrix, rows@, cols@),
        rows@.len() > 0,
        cols@.len() > 0,
    ensures
        strictly_sorted(stack@),
        forall |k: int| 0 <= k < stack@.len() ==> rows@.contains(#[trigger] stack@[k]),
        0 < stack@.len() <= cols@.len(),
        forall |l: int, rb: usize|
            0 <= l < cols@.len() && #[trigger] is_min_in(matrix, rows@, cols@[l] as int, rb)
                ==> stack@.contains(rb),
{
    let mut stack: Vec<usize> = Vec::new();
    let mut t: usize = 0;
    while t < rows.len()
        invariant
            t <= rows@.len(),
            stack@.len() <= cols@.len(),
            t > 0 ==> stack@.len() > 0,
            strictly_sorted(stack@),
            forall |k: int| 0 <= k < stack@.len() ==> rows@.contains(#[trigger] stack@[k]),
            forall |k: int, l: int| 0 <= k < stack@.len() && t <= l < rows@.len()
                ==> #[trigger] stack@[k] < #[trigger] rows@[l],
            chain_ok(matrix, stack@, cols@),
            forall |l: int, rb: usize|
                0 <= l < cols@.len() && #[trigger] is_min_in(matrix, rows@, cols@[l] as int, rb)
                    ==> stack@.contains(rb)
                        || exists |q: int| t <= q < rows@.len() && rows@[q] == rb,
        decreases rows@.len() - t,
    {
        let rc = rows[t];
        proof {
            assert(rows@.contains(rc));
            assert(rc < matrix.nrows()) by {
                let q = choose |q: int| 0 <= q < rows@.len() && rows@[q] == rc;
                assert(rows@[q] < matrix.nrows());
            }
            assert forall |k: int| 0 <= k < cols@.len()
                implies matrix.queryable(rc as int, #[trigger] cols@[k] as int) by {
                assert(cols@.contains(cols@[k]));
            }
            assert forall |k: int| 0 <= k < stack@.len()
                implies #[trigger] stack@[k] < matrix.nrows()
                    && matrix.queryable(stack@[k] as int, cols@[k] as int) by {
                assert(rows@.contains(stack@[k]));
                assert(cols@.contains(cols@[k]));
                let q = choose |q: int| 0 <= q < rows@.len() && rows@[q] == stack@[k];
                assert(rows@[q] < matrix.nrows());
            }
        }
        while pop_needed(matrix, &stack, cols, rc)
            invariant
                rc < matrix.nrows(),
                forall |k: int| 0 <= k < cols@.len()
                    ==> matrix.queryable(rc as int, #[trigger] cols@[k] as int),
                forall |k: int| 0 <= k < stack@.len()
                    ==> #[trigger] stack@[k] < matrix.nrows()
                        && matrix.queryable(stack@[k] as int, cols@[k] as int),
                stack@.len() <= cols@.len(),
                strictly_sorted(stack@),
                forall |k: int| 0 <= k < stack@.len() ==> rows@.contains(#[trigger] stack@[k]),
                forall |k: int, l: int| 0 <= k < stack@.len() && t <= l < rows@.len()
                    ==> #[trigger] stack@[k] < #[trigger] rows@[l],
                chain_ok(matrix, stack@, cols@),
                forall |l: int, rb: usize|
                    0 <= l < cols@.len() && #[trigger] is_min_in(matrix, rows@, cols@[l] as int, rb)
                        ==> stack@.contains(rb)
                            || exists |q: int| t <= q < rows@.len() && rows@[q] == rb,
            decreases stack@.len(),
        {
            let ghost p = stack@[stack@.len() - 1];
            proof {
                // The popped row is not the left-most minimum of any
                // candidate column, so dropping it preserves the
                // survivor invariant.
                lemma_popped_not_min(matrix, rows@, cols@, stack@, rc);
                assert forall |l: int, rb: usize|
                    0 <= l < cols@.len()
                        && #[trigger] is_min_in(matrix, rows@, cols@[l] as int, rb)
                        && stack@.contains(rb) && rb != p
                    implies stack@.drop_last().contains(rb) by {
                    let kq = choose |kq: int| 0 <= kq < stack@.len() && stack@[kq] == rb;
                    assert(kq < stack@.len() - 1);
                    assert(stack@.drop_last()[kq] == rb);
                }
            }
            let _ = stack.pop();
        }
        if stack.len() != cols.len() {
            let ghost old_stack = stack@;
            stack.push(rc);
            proof {
                assert forall |k: int, l: int| 0 <= k < stack@.len() && t + 1 <= l < rows@.len()
                    implies #[trigger] stack@[k] < #[trigger] rows@[l] by {
                    if k < stack@.len() - 1 {
                        assert(old_stack[k] < rows@[l]);
                    } else {
                        assert(stack@[k] == rc);
                    }
                }
                assert forall |l: int, rb: usize|
                    0 <= l < cols@.len() && #[trigger] is_min_in(matrix, rows@, cols@[l] as int, rb)
                    implies stack@.contains(rb)
                        || exists |q: int| t + 1 <= q < rows@.len() && rows@[q] == rb by {
                    assert(old_stack.contains(rb)
                        || exists |q: int| t <= q < rows@.len() && rows@[q] == rb);
                    if old_stack.contains(rb) {
                        let kq = choose |kq: int| 0 <= kq < old_stack.len() && old_stack[kq] == rb;
                        assert(stack@[kq] == rb);
                        assert(stack@.contains(rb));
                    } else {
                        let q = choose |q: int| t <= q < rows@.len() && rows@[q] == rb;
                        if q == t {
                            assert(stack@[stack@.len() - 1] == rb);
                            assert(stack@.contains(rb));
                        } else {
                            assert(t + 1 <= q < rows@.len() && rows@[q] == rb);
                        }
                    }
                }
            }
        } else {
            proof {
                // The stack is full and its top is at least as good as
                // the current row in the last candidate column, so the
                // current row can never be a left-most minimum.
                lemma_skipped_not_min(matrix, rows@, cols@, stack@, rc);
                assert forall |l: int, rb: usize|
                    0 <= l < cols@.len() && #[trigger] is_min_in(matrix, rows@, cols@[l] as int, rb)
                    implies stack@.contains(rb)
                        || exists |q: int| t + 1 <= q < rows@.len() && rows@[q] == rb by {
                    assert(stack@.contains(rb)
                        || exists |q: int| t <= q < rows@.len() && rows@[q] == rb);
                    if !stack@.contains(rb) {
                        let q = choose |q: int| t <= q < rows@.len() && rows@[q] == rb;
                        assert(rows@[q] == rb);
                        if q == t {
                            assert(rb == rc);
                            assert(false);
                        }
                        assert(t + 1 <= q < rows@.len() && rows@[q] == rb);
                    }
                }
            }
        }
        t += 1;
    }
    stack
}

/// Conquer step of SMAWK: given the answers for the odd-position
/// candidate columns, resolve the even-position ones with one bounded
/// scan over the surviving rows between each pair of odd answers.
#[verifier::loop_isolation(false)]
#[verifier::rlimit(100)]
fn smawk_conquer<M: MatrixAccess>(
    matrix: &M, stack: &Vec<usize>, cols: &Vec<usize>, minima: &mut Vec<usize>,
)
    requires
        strictly_sorted(stack@),
        strictly_sorted(cols@),
        stack@.len() > 0,
        cols@.len() > 0,
        forall |k: int| 0 <= k < stack@.len() ==> #[trigger] stack@[k] < matrix.nrows(),
        forall |k: int| 0 <= k < cols@.len() ==> #[trigger] cols@[k] < matrix.ncols(),
        valid_pairs(matrix, stack@, cols@),
        tm_on(matrix, stack@, cols@),
        cols@.len() < usize::MAX,
        forall |k: int| 0 <= k < cols@.len() ==> #[trigger] cols@[k] < old(minima)@.len(),
        forall |l: int| 0 <= l < cols@.len() && l % 2 == 1
            ==> is_min_in(matrix, stack@, #[trigger] cols@[l] as int, old(minima)@[cols@[l] as int]),
    ensures
        final(minima)@.len() == old(minima)@.len(),
        forall |l: int| 0 <= l < cols@.len()
            ==> is_min_in(matrix, stack@, #[trigger] cols@[l] as int, final(minima)@[cols@[l] as int]),
        forall |j: int| 0 <= j < final(minima)@.len() && !cols@.contains(j as usize)
            ==> final(minima)@[j] == old(minima)@[j],
{
    proof {
        assert forall |k: int, l: int| 0 <= k < stack@.len() && 0 <= l < cols@.len()
            implies matrix.queryable(#[trigger] stack@[k] as int, #[trigger] cols@[l] as int) by {
            assert(stack@.contains(stack@[k]));
            assert(cols@.contains(cols@[l]));
        }
        assert forall |l: int, rb: usize|
            0 <= l < cols@.len() && #[trigger] is_min_in(matrix, stack@, cols@[l] as int, rb)
            implies stack@[0] <= rb by {
            let kq = choose |kq: int| 0 <= kq < stack@.len() && stack@[kq] == rb;
            if kq > 0 {
                assert(stack@[0] < stack@[kq]);
            }
        }
    }
    let mut r: usize = 0;
    let mut e: usize = 0;
    while e < cols.len()
        invariant
            e % 2 == 0,
            e <= cols@.len() + 1,
            r < stack@.len(),
            minima@.len() == old(minima)@.len(),
            forall |j: int| 0 <= j < minima@.len() && !cols@.contains(j as usize)
                ==> minima@[j] == old(minima)@[j],
            forall |l: int| 0 <= l < cols@.len() && l % 2 == 1
                ==> is_min_in(matrix, stack@, #[trigger] cols@[l] as int, minima@[cols@[l] as int]),
            forall |l: int| 0 <= l < e && l % 2 == 0
                ==> is_min_in(matrix, stack@, #[trigger] cols@[l] as int, minima@[cols@[l] as int]),
            forall |l: int, rb: usize|
                e <= l < cols@.len() && #[trigger] is_min_in(matrix, stack@, cols@[l] as int, rb)
                    ==> stack@[r as int] <= rb,
        decreases cols@.len() + 1 - e,
    {
        let col = cols[e];
        let mut row = stack[r];
        let last_row = if e + 1 == cols.len() {
            stack[stack.len() - 1]
        } else {
            minima[cols[e + 1]]
        };
        proof {
            if e + 1 < cols@.len() {
                assert(is_min_in(matrix, stack@, cols@[e + 1] as int, last_row));
            }
        }
        let ghost pl = choose |pl: int| 0 <= pl < stack@.len() && stack@[pl] == last_row;
        proof {
            if e + 1 < cols@.len() {
                assert(stack@.contains(last_row));
                assert(is_min_in(matrix, stack@, cols@[e + 1] as int, last_row));
                assert(stack@[r as int] <= last_row);
            } else {
                assert(stack@[stack@.len() - 1] == last_row);
            }
            assert(0 <= pl < stack@.len() && stack@[pl] == last_row);
            if pl < r {
                assert(stack@[pl] < stack@[r as int]);
                assert(false);
            }
        }
        let ghost r0 = r as int;
        let mut best_row = row;
        let mut best_v = matrix.get(row, col);
        while row != last_row
            invariant
                e < cols@.len(),
                col == cols@[e as int],
                r0 <= r <= pl,
                pl < stack@.len(),
                stack@[pl] == last_row,
                row == stack@[r as int],
                stack@.contains(best_row),
                best_row <= row,
                best_v as int == matrix.entry(best_row as int, col as int),
                forall |q: int| r0 <= q <= r
                    ==> lex_le(matrix.entry(best_row as int, col as int), best_row as int,
                        matrix.entry(#[trigger] stack@[q] as int, col as int), stack@[q] as int),
            decreases pl - r,
        {
            let sl = stack.len();
            proof {
                if r == pl {
                    assert(false);
                }
                assert(r < pl && pl < sl);
            }
            r += 1;
            row = stack[r];
            let v = matrix.get(row, col);
            if v < best_v {
                best_v = v;
                best_row = row;
            }
        }
        proof {
            // The scanned window contains the column's left-most
            // minimum over the surviving rows, so the best of the
            // window is that minimum.
            if r < pl {
                assert(stack@[r as int] == stack@[pl]);
                assert(false);
            }
            let rb = lemma_min_exists(matrix, stack@, col as int);
            let kb = choose |kb: int| 0 <= kb < stack@.len() && stack@[kb] == rb;
            assert(stack@[r0] <= rb);
            if kb < r0 {
                assert(stack@[kb] < stack@[r0]);
                assert(false);
            }
            if e + 1 < cols@.len() {
                lemma_argmin_monotone(matrix, stack@, cols@, col, cols@[e + 1], rb, last_row);
                if kb > pl {
                    assert(stack@[pl] < stack@[kb]);
                    assert(false);
                }
            } else {
                if kb > pl {
                    assert(false);
                }
            }
            assert(lex_le(matrix.entry(best_row as int, col as int), best_row as int,
                matrix.entry(rb as int, col as int), rb as int));
            lemma_min_le(matrix, stack@, col as int, rb, best_row);
            assert(best_row == rb);
            assert(is_min_in(matrix, stack@, col as int, best_row));
        }
        minima.set(col, best_row);
        proof {
            assert forall |l: int| 0 <= l < cols@.len() && l % 2 == 1
                implies is_min_in(matrix, stack@, #[trigger] cols@[l] as int,
                    minima@[cols@[l] as int]) by {
                assert(cols@[l] != cols@[e as int]);
            }
            assert forall |l: int| 0 <= l < e + 2 && l % 2 == 0
                implies is_min_in(matrix, stack@, #[trigger] cols@[l] as int,
                    minima@[cols@[l] as int]) by {
                if l < e {
                    assert(cols@[l] != cols@[e as int]);
                }
            }
            if e + 2 < cols@.len() {
                assert forall |l: int, rb2: usize|
                    e + 2 <= l < cols@.len()
                        && #[trigger] is_min_in(matrix, stack@, cols@[l] as int, rb2)
                    implies stack@[r as int] <= rb2 by {
                    lemma_argmin_monotone(matrix, stack@, cols@, cols@[e + 1], cols@[l],
                        last_row, rb2);
                }
            }
        }
        e += 2;
    }
}

/// Compute, for each candidate column in `cols`, the left-most minimum
/// among the candidate rows in `rows`, writing the answer for column
/// `c` into `minima[c]`. Both candidate lists must be strictly
/// increasing, and the matrix must be totally monotone on them.
#[verifier::loop_isolation(false)]
#[verifier::rlimit(100)]
pub fn smawk_inner<M: MatrixAccess>(
    matrix: &M, rows: &Vec<usize>, cols: &Vec<usize>, minima: &mut Vec<usize>,
)
    requires
        strictly_sorted(rows@),
        strictly_sorted(cols@),
        forall |k: int| 0 <= k < rows@.len() ==> #[trigger] rows@[k] < matrix.nrows(),
        forall |k: int| 0 <= k < cols@.len() ==> #[trigger] cols@[k] < matrix.ncols(),
        valid_pairs(matrix, rows@, cols@),
        tm_on(matrix, rows@, cols@),
        cols@.len() < usize::MAX,
        cols@.len() > 0 ==> rows@.len() > 0,
        forall |k: int| 0 <= k < cols@.len() ==> #[trigger] cols@[k] < old(minima)@.len(),
    ensures
        final(minima)@.len() == old(minima)@.len(),
        forall |k: int| 0 <= k < cols@.len()
            ==> is_min_in(matrix, rows@, #[trigger] cols@[k] as int, final(minima)@[cols@[k] as int]),
        forall |j: int| 0 <= j < final(minima)@.len() && !cols@.contains(j as usize)
            ==> final(minima)@[j] == old(minima)@[j],
    decreases cols@.len(),
{
    if cols.len() == 0 {
        return;
    }

    // Reduce phase: eliminate rows that can never hold a column
    // minimum, keeping at most one surviving row per column.
    let stack = smawk_reduce(matrix, rows, cols);

    // Conquer phase: solve the odd-position columns recursively, then
    // resolve each even-position column with a bounded scan between
    // the answers of its odd neighbours.
    let mut odd_cols: Vec<usize> = Vec::new();
    let mut idx: usize = 1;
    while idx < cols.len()
        invariant
            1 <= idx <= cols@.len() + 1,
            idx % 2 == 1,
            odd_cols@.len() == idx / 2,
            forall |k: int| 0 <= k < odd_cols@.len() ==> #[trigger] odd_cols@[k] == cols@[2 * k + 1],
        decreases cols@.len() + 1 - idx,
    {
        odd_cols.push(cols[idx]);
        idx += 2;
    }
    proof {
        assert forall |k1: int, k2: int| 0 <= k1 < k2 < odd_cols@.len()
            implies #[trigger] odd_cols@[k1] < #[trigger] odd_cols@[k2] by {
            assert(cols@[2 * k1 + 1] < cols@[2 * k2 + 1]);
        }
        assert forall |q: int| 0 <= q < odd_cols@.len()
            implies cols@.contains(#[trigger] odd_cols@[q]) by {
            assert(odd_cols@[q] == cols@[2 * q + 1]);
        }
        assert forall |k: int| 0 <= k < odd_cols@.len() implies #[trigger] odd_cols@[k] < minima@.len() by {
            assert(odd_cols@[k] == cols@[2 * k + 1]);
        }
        lemma_restrict(matrix, rows@, cols@, stack@, odd_cols@);
    }

    smawk_inner(matrix, &stack, &odd_cols, minima);

    proof {
        assert forall |l: int| 0 <= l < cols@.len() && l % 2 == 1
            implies is_min_in(matrix, stack@, #[trigger] cols@[l] as int,
                minima@[cols@[l] as int]) by {
            let k = (l - 1) / 2;
            assert(0 <= k < odd_cols@.len());
            assert(odd_cols@[k] == cols@[2 * k + 1]);
            assert(2 * k + 1 == l);
        }
        assert forall |j: int| 0 <= j < minima@.len() && !cols@.contains(j as usize)
            implies minima@[j] == old(minima)@[j] by {
            if odd_cols@.contains(j as usize) {
                assert(cols@.contains(j as usize));
            }
        }
        assert forall |q: int| 0 <= q < cols@.len()
            implies cols@.contains(#[trigger] cols@[q]) by {
        }
        lemma_restrict(matrix, rows@, cols@, stack@, cols@);
    }

    smawk_conquer(matrix, &stack, cols, minima);

    // Lift the answers from the surviving rows to the full candidate
    // list: the survivor invariant says no discarded row was ever a
    // left-most minimum.
    proof {
        lemma_lift_minima(matrix, rows@, cols@, stack@, minima@);
    }
}

/// The list `0, 1, ..., n - 1` of all candidate indices.
pub(crate) fn range_vec(n: usize) -> (v: Vec<usize>)
    ensures
        v@.len() == n,
        forall |k: int| 0 <= k < n ==> #[trigger] v@[k] == k,
{
    let mut v: Vec<usize> = Vec::new();
    let mut i: usize = 0;
    while i < n
        invariant
            0 <= i <= n,
            v@.len() == i,
            forall |k: int| 0 <= k < i ==> #[trigger] v@[k] == k,
        decreases n - i,
    {
        v.push(i);
        i += 1;
    }
    v
}

/// A scratch vector of `n` zero entries for the minima results.
pub(crate) fn zero_vec(n: usize) -> (v: Vec<usize>)
    ensures
        v@.len() == n,
{
    let mut v: Vec<usize> = Vec::new();
    let mut i: usize = 0;
    while i < n
        invariant
            0 <= i <= n,
            v@.len() == i,
        decreases n - i,
    {
        v.push(0);
        i += 1;
    }
    v
}

/// Compute column minima with the SMAWK algorithm.
///
/// `result[j]` is the row of the left-most minimum value in column
/// `j`. The matrix must be totally monotone; no runtime check is made
/// and the result is unspecified when the precondition is violated. A
/// matrix with zero rows is rejected with [`MinimaError::EmptyInput`].
pub fn smawk_column_minima(matrix: &IntMatrix) -> (result: Result<Vec<usize>, MinimaError>)
    requires
        matrix.wf(),
        totally_monotone(matrix),
        matrix.ncols() < usize::MAX,
    ensures
        (match result {
            Ok(v) => {
                &&& matrix.nrows() >= 1
                &&& v@.len() == matrix.ncols()
                &&& forall |j: int| 0 <= j < matrix.ncols() ==> is_col_min(matrix, j, #[trigger] v@[j] as int)
            },
            Err(e) => e == MinimaError::EmptyInput && matrix.nrows() == 0,
        }),
{
    if matrix.rows() == 0 {
        return Err(MinimaError::EmptyInput);
    }
    let rows = range_vec(matrix.rows());
    let cols = range_vec(matrix.cols());
    let mut minima = zero_vec(matrix.cols());
    proof {
        lemma_tm_full(matrix, rows@, cols@);
        assert forall |r: usize, c: usize| #![trigger rows@.contains(r), cols@.contains(c)]
            rows@.contains(r) && cols@.contains(c)
            implies r < matrix.nrows() && c < matrix.ncols()
                && matrix.queryable(r as int, c as int) by {
            let q1 = choose |q: int| 0 <= q < rows@.len() && rows@[q] == r;
            let q2 = choose |q: int| 0 <= q < cols@.len() && cols@[q] == c;
            assert(rows@[q1] < matrix.nrows());
            assert(cols@[q2] < matrix.ncols());
        }
    }
    smawk_inner(matrix, &rows, &cols, &mut minima);
    proof {
        assert forall |j: int| 0 <= j < matrix.ncols()
            implies is_col_min(matrix, j, #[trigger] minima@[j] as int) by {
            assert(cols@[j] == j as usize);
            assert(is_min_in(matrix, rows@, cols@[j] as int, minima@[cols@[j] as int]));
            let r = minima@[j];
            let kq = choose |kq: int| 0 <= kq < rows@.len() && rows@[kq] == r;
            assert forall |r2: int| 0 <= r2 < matrix.nrows()
                implies lex_le(matrix.entry(r as int, j), r as int,
                    #[trigger] matrix.entry(r2, j), r2) by {
                assert(rows@[r2] == r2 as usize);
                assert(lex_le(matrix.entry(r as int, j), r as int,
                    matrix.entry(rows@[r2] as int, j), rows@[r2] as int));
            }
        }
    }
    Ok(minima)
}

/// Compute row minima with the SMAWK algorithm.
///
/// `result[i]` is the column of the left-most minimum value in row
/// `i`. The matrix must be totally monotone; no runtime check is made
/// and the result is unspecified when the precondition is violated. A
/// matrix with zero columns is rejected with [`MinimaError::EmptyInput`].
pub fn smawk_row_minima(matrix: &IntMatrix) -> (result: Result<Vec<usize>, MinimaError>)
    requires
        matrix.wf(),
        totally_monotone_rowwise(matrix),
        matrix.nrows() < usize::MAX,
    ensures
        (match result {
            Ok(v) => {
                &&& matrix.ncols() >= 1
                &&& v@.len() == matrix.nrows()
                &&& forall |i: int| 0 <= i < matrix.nrows() ==> is_row_min(matrix, i, #[trigger] v@[i] as int)
            },
            Err(e) => e == MinimaError::EmptyInput && matrix.ncols() == 0,
        }),
{
    if matrix.cols() == 0 {
        return Err(MinimaError::EmptyInput);
    }
    let t = Transposed { m: matrix };
    let rows = range_vec(matrix.cols());
    let cols = range_vec(matrix.rows());
    let mut minima = zero_vec(matrix.rows());
    proof {
        // The transposed view turns row-wise total monotonicity into
        // the column-minima form that the core works with.
        assert forall |r1: int, r2: int, c1: int, c2: int|
            0 <= r1 < r2 < t.nrows() && 0 <= c1 < c2 < t.ncols()
            implies #[trigger] tm_pair(&t, r1, r2, c1, c2) by {
            assert(tm_pair_rowwise(matrix, c1, c2, r1, r2));
            assert(matrix.entry(c1, r1) == t.entry(r1, c1));
            assert(matrix.entry(c1, r2) == t.entry(r2, c1));
            assert(matrix.entry(c2, r1) == t.entry(r1, c2));
            assert(matrix.entry(c2, r2) == t.entry(r2, c2));
        }
        assert(totally_monotone(&t));
        lemma_tm_full(&t, rows@, cols@);
        assert forall |r: usize, c: usize| #![trigger rows@.contains(r), cols@.contains(c)]
            rows@.contains(r) && cols@.contains(c)
            implies r < t.nrows() && c < t.ncols()
                && t.queryable(r as int, c as int) by {
            let q1 = choose |q: int| 0 <= q < rows@.len() && rows@[q] == r;
            let q2 = choose |q: int| 0 <= q < cols@.len() && cols@[q] == c;
            assert(rows@[q1] < t.nrows());
            assert(cols@[q2] < t.ncols());
        }
    }
    smawk_inner(&t, &rows, &cols, &mut minima);
    proof {
        assert forall |i: int| 0 <= i < matrix.nrows()
            implies is_row_min(matrix, i, #[trigger] minima@[i] as int) by {
            assert(cols@[i] == i as usize);
            assert(is_min_in(&t, rows@, cols@[i] as int, minima@[cols@[i] as int]));
            let c = minima@[i];
            assert forall |c2: int| 0 <= c2 < matrix.ncols()
                implies lex_le(matrix.entry(i, c as int), c as int,
                    #[trigger] matrix.entry(i, c2), c2) by {
                assert(rows@[c2] == c2 as usize);
                assert(lex_le(t.entry(c as int, i), c as int,
                    t.entry(rows@[c2] as int, i), rows@[c2] as int));
                assert(t.entry(c as int, i) == matrix.entry(i, c as int));
                assert(t.entry(c2, i) == matrix.entry(i, c2));
            }
        }
    }
    Ok(minima)
}

} // verus!
