//! The Monge-property verifier and the random Monge-matrix generator.
//!
//! A Monge matrix satisfies `M[i,j] + M[i',j'] <= M[i,j'] + M[i',j]`
//! for all `i < i'`, `j < j'`; the property only needs to be checked
//! on adjacent 2x2 windows, and it implies total monotonicity in both
//! directions, so it is the practical eligibility test for the fast
//! minima strategies. The verifier uses overflow-safe arithmetic: a
//! sum that overflows counts as larger than any representable value,
//! and when both sums of a window overflow the wrapped sums are
//! compared instead, a documented approximation.

use vstd::prelude::*;

use rand::Rng;

use crate::matrix::{IntMatrix, MatrixAccess};

verus! {

/// The span of `i64`, used to define wrapping of overflowed sums.
pub open spec fn i64_span() -> int {
    0x1_0000_0000_0000_0000
}

/// The value fits in `i64`.
pub open spec fn fits_i64(v: int) -> bool {
    i64::MIN <= v <= i64::MAX
}

/// What a sum of two `i64` values becomes under wrapping arithmetic.
pub open spec fn wrap_i64(v: int) -> int {
    if v > i64::MAX {
        v - i64_span()
    } else if v < i64::MIN {
        v + i64_span()
    } else {
        v
    }
}

/// The verifier's verdict on one 2x2 window with corners `x` (top
/// left), `y` (bottom right), `z` (top right) and `w` (bottom left):
/// compare `x + y <= z + w`, treating an overflowed sum as larger than
/// any representable value, and falling back to wrapped sums when both
/// overflow.
pub open spec fn monge_window_ok(x: int, y: int, z: int, w: int) -> bool {
    if fits_i64(x + y) && fits_i64(z + w) {
        x + y <= z + w
    } else if fits_i64(x + y) {
        true
    } else if fits_i64(z + w) {
        false
    } else {
        wrap_i64(x + y) <= wrap_i64(z + w)
    }
}

/// Every adjacent 2x2 window of the matrix passes the overflow-safe
/// verdict. This is exactly what [`is_monge`] decides.
pub open spec fn monge_check<M: MatrixAccess>(m: &M) -> bool {
    forall |i: int, j: int| 0 <= i < m.nrows() - 1 && 0 <= j < m.ncols() - 1
        ==> #[trigger] monge_window_ok(
                m.entry(i, j), m.entry(i + 1, j + 1), m.entry(i, j + 1), m.entry(i + 1, j))
}

/// Every adjacent 2x2 window satisfies the exact Monge inequality over
/// the unbounded integers.
pub open spec fn monge_adjacent<M: MatrixAccess>(m: &M) -> bool {
    forall |i: int, j: int| #![trigger m.entry(i, j)]
        0 <= i < m.nrows() - 1 && 0 <= j < m.ncols() - 1
            ==> m.entry(i, j) + m.entry(i + 1, j + 1)
                <= m.entry(i, j + 1) + m.entry(i + 1, j)
}

/// The exact Monge property over the unbounded integers, for every
/// pair of rows and columns, adjacent or not.
pub open spec fn is_monge_spec<M: MatrixAccess>(m: &M) -> bool {
    forall |i1: int, i2: int, j1: int, j2: int| #![trigger m.entry(i1, j1), m.entry(i2, j2)]
        0 <= i1 < i2 < m.nrows() && 0 <= j1 < j2 < m.ncols()
            ==> m.entry(i1, j1) + m.entry(i2, j2)
                <= m.entry(i1, j2) + m.entry(i2, j1)
}

/// Verify that a matrix is a Monge matrix.
///
/// Scans every adjacent 2x2 window and compares the diagonal sum with
/// the antidiagonal sum, detecting overflow: a sum that overflows is
/// treated as larger than any representable value, and when both sums
/// overflow the wrapped sums are compared instead. The wrapped
/// fallback is a documented approximation, not a rigorous check.
pub fn is_monge(matrix: &IntMatrix) -> (r: bool)
    requires
        matrix.wf(),
    ensures
        r == monge_check(matrix),
{
    let rows = matrix.rows();
    let cols = matrix.cols();
    if rows < 2 || cols < 2 {
        return true;
    }
    let mut i: usize = 0;
    while i + 1 < rows
        invariant
            rows as int == matrix.nrows(),
            cols as int == matrix.ncols(),
            matrix.wf(),
            cols >= 2,
            0 <= i < rows,
            forall |a: int, b: int| 0 <= a < i && 0 <= b < matrix.ncols() - 1
                ==> #[trigger] monge_window_ok(
                        matrix.entry(a, b), matrix.entry(a + 1, b + 1),
                        matrix.entry(a, b + 1), matrix.entry(a + 1, b)),
        decreases rows - i,
    {
        let mut j: usize = 0;
        while j + 1 < cols
            invariant
                rows as int == matrix.nrows(),
                cols as int == matrix.ncols(),
                matrix.wf(),
                0 <= i < rows - 1,
                0 <= j < cols,
                forall |a: int, b: int| 0 <= a < i && 0 <= b < matrix.ncols() - 1
                    ==> #[trigger] monge_window_ok(
                            matrix.entry(a, b), matrix.entry(a + 1, b + 1),
                            matrix.entry(a, b + 1), matrix.entry(a + 1, b)),
                forall |b: int| 0 <= b < j
                    ==> #[trigger] monge_window_ok(
                            matrix.entry(i as int, b), matrix.entry(i as int + 1, b + 1),
                            matrix.entry(i as int, b + 1), matrix.entry(i as int + 1, b)),
            decreases cols - j,
        {
            let x = matrix.get(i, j);
            let y = matrix.get(i + 1, j + 1);
            let z = matrix.get(i, j + 1);
            let w = matrix.get(i + 1, j);
            let lhs: i128 = x as i128 + y as i128;
            let rhs: i128 = z as i128 + w as i128;
            let lhs_fits = i64::MIN as i128 <= lhs && lhs <= i64::MAX as i128;
            let rhs_fits = i64::MIN as i128 <= rhs && rhs <= i64::MAX as i128;
            let ok: bool = if lhs_fits && rhs_fits {
                lhs <= rhs
            } else if lhs_fits {
                true
            } else if rhs_fits {
                false
            } else {
                let wl: i128 = if lhs > i64::MAX as i128 {
                    lhs - 0x1_0000_0000_0000_0000i128
                } else {
                    lhs + 0x1_0000_0000_0000_0000i128
                };
                let wr: i128 = if rhs > i64::MAX as i128 {
                    rhs - 0x1_0000_0000_0000_0000i128
                } else {
                    rhs + 0x1_0000_0000_0000_0000i128
                };
                wl <= wr
            };
            if !ok {
                proof {
                    assert(!monge_window_ok(
                        matrix.entry(i as int, j as int),
                        matrix.entry(i as int + 1, j as int + 1),
                        matrix.entry(i as int, j as int + 1),
                        matrix.entry(i as int + 1, j as int)));
                }
                return false;
            }
            j += 1;
        }
        i += 1;
    }
    true
}

/// Marker declaration so that rand's generator type can appear in
/// signatures of this crate.
#[verifier::external_type_specification]
#[verifier::external_body]
pub struct ExXorShiftRng(rand::XorShiftRng);

/// Relies on rand's Rng::gen for u8: returns some byte; nothing is
/// assumed of its value.
#[verifier::external_body]
fn draw_byte(rng: &mut rand::XorShiftRng) -> (v: u8)
{
    rng.gen()
}

/// Relies on rand's Rng::gen for bool: returns some coin flip; nothing
/// is assumed of its value.
#[verifier::external_body]
fn draw_bool(rng: &mut rand::XorShiftRng) -> (v: bool)
{
    rng.gen()
}

/// Relies on rand's Rng::gen_range: returns a value in `[0, hi)`; the
/// bounds are what its documentation promises of the half-open range.
#[verifier::external_body]
fn draw_below(rng: &mut rand::XorShiftRng, hi: usize) -> (v: usize)
    requires
        1 <= hi,
        hi as int <= isize::MAX as int,
    ensures
        v < hi,
{
    rng.gen_range(0, hi as isize) as usize
}

/// A Monge matrix can be decomposed into a non-negative sum of these
/// primitive building blocks.
#[derive(Clone, Copy, Debug, PartialEq, Eq, Structural)]
pub enum MongePrim {
    ConstantRows,
    ConstantCols,
    UpperRightOnes,
    LowerLeftOnes,
}

impl MongePrim {
    /// Generate an `m` x `n` Monge matrix from a primitive: constant
    /// rows or columns of random bytes, or a random block of ones in
    /// the upper-right or lower-left corner. Every entry is between 0
    /// and 255 and the result satisfies the Monge inequality on every
    /// adjacent window.
    pub fn to_matrix(&self, m: usize, n: usize, rng: &mut rand::XorShiftRng) -> (result: IntMatrix)
        requires
            m as int + 1 <= isize::MAX as int,
            n as int + 1 <= isize::MAX as int,
        ensures
            result.wf(),
            result.nrows() == m,
            result.ncols() == n,
            monge_adjacent(&result),
            forall |i: int, j: int| 0 <= i < m && 0 <= j < n
                ==> 0 <= #[trigger] result.entry(i, j) <= 255,
            (*self == MongePrim::UpperRightOnes || *self == MongePrim::LowerLeftOnes)
                ==> forall |i: int, j: int| 0 <= i < m && 0 <= j < n
                    ==> 0 <= #[trigger] result.entry(i, j) <= 1,
    {
        let mut data: Vec<Vec<i64>> = Vec::new();
        if m == 0 || n == 0 {
            return IntMatrix::zeros(m, n);
        }
        match *self {
            MongePrim::ConstantRows => {
                let mut i: usize = 0;
                while i < m
                    invariant
                        i <= m,
                        data@.len() == i,
                        forall |a: int| 0 <= a < i ==> (#[trigger] data@[a])@.len() == n,
                        forall |a: int, b: int| 0 <= a < i && 0 <= b < n
                            ==> #[trigger] data@[a]@[b] == data@[a]@[0]
                                && 0 <= data@[a]@[b] <= 255,
                    decreases m - i,
                {
                    let v = draw_byte(rng) as i64;
                    let row = fill_row(n, v);
                    data.push(row);
                    i += 1;
                }
                build_matrix(data, m, n)
            }
            MongePrim::ConstantCols => {
                let mut first: Vec<i64> = Vec::new();
                let mut j: usize = 0;
                while j < n
                    invariant
                        j <= n,
                        first@.len() == j,
                        forall |b: int| 0 <= b < j ==> 0 <= #[trigger] first@[b] <= 255,
                    decreases n - j,
                {
                    let v = draw_byte(rng) as i64;
                    first.push(v);
                    j += 1;
                }
                let mut i: usize = 0;
                while i < m
                    invariant
                        i <= m,
                        first@.len() == n,
                        forall |b: int| 0 <= b < n ==> 0 <= #[trigger] first@[b] <= 255,
                        data@.len() == i,
                        forall |a: int| 0 <= a < i ==> (#[trigger] data@[a])@.len() == n,
                        forall |a: int, b: int| 0 <= a < i && 0 <= b < n
                            ==> #[trigger] data@[a]@[b] == first@[b],
                    decreases m - i,
                {
                    let row = copy_row(&first);
                    data.push(row);
                    i += 1;
                }
                build_matrix(data, m, n)
            }
            MongePrim::UpperRightOnes => {
                let a = draw_below(rng, m + 1);
                let b = draw_below(rng, n + 1);
                let mut i: usize = 0;
                while i < m
                    invariant
                        i <= m,
                        b <= n,
                        data@.len() == i,
                        forall |q: int| 0 <= q < i ==> (#[trigger] data@[q])@.len() == n,
                        forall |q: int, r: int| 0 <= q < i && 0 <= r < n
                            ==> #[trigger] data@[q]@[r]
                                == (if q < a && r >= n - b { 1int } else { 0int }),
                    decreases m - i,
                {
                    let one = i < a;
                    let mut row: Vec<i64> = Vec::new();
                    let mut j: usize = 0;
                    while j < n
                        invariant
                            j <= n,
                            b <= n,
                            row@.len() == j,
                            one == (i < a),
                            forall |r: int| 0 <= r < j
                                ==> #[trigger] row@[r]
                                    == (if i < a && r >= n - b { 1int } else { 0int }),
                        decreases n - j,
                    {
                        if one && j >= n - b {
                            row.push(1);
                        } else {
                            row.push(0);
                        }
                        j += 1;
                    }
                    data.push(row);
                    i += 1;
                }
                build_matrix(data, m, n)
            }
            MongePrim::LowerLeftOnes => {
                let a = draw_below(rng, m + 1);
                let b = draw_below(rng, n + 1);
                let mut i: usize = 0;
                while i < m
                    invariant
                        i <= m,
                        a <= m,
                        b <= n,
                        data@.len() == i,
                        forall |q: int| 0 <= q < i ==> (#[trigger] data@[q])@.len() == n,
                        forall |q: int, r: int| 0 <= q < i && 0 <= r < n
                            ==> #[trigger] data@[q]@[r]
                                == (if q >= m - a && r < b { 1int } else { 0int }),
                    decreases m - i,
                {
                    let one = i >= m - a;
                    let mut row: Vec<i64> = Vec::new();
                    let mut j: usize = 0;
                    while j < n
                        invariant
                            j <= n,
                            a <= m,
                            b <= n,
                            row@.len() == j,
                            one == (i >= m - a),
                            forall |r: int| 0 <= r < j
                                ==> #[trigger] row@[r]
                                    == (if i >= m - a && r < b { 1int } else { 0int }),
                        decreases n - j,
                    {
                        if one && j < b {
                            row.push(1);
                        } else {
                            row.push(0);
                        }
                        j += 1;
                    }
                    data.push(row);
                    i += 1;
                }
                build_matrix(data, m, n)
            }
        }
    }
}

/// A row of `n` copies of `v`.
fn fill_row(n: usize, v: i64) -> (row: Vec<i64>)
    ensures
        row@.len() == n,
        forall |b: int| 0 <= b < n ==> #[trigger] row@[b] == v,
{
    let mut row: Vec<i64> = Vec::new();
    let mut j: usize = 0;
    while j < n
        invariant
            j <= n,
            row@.len() == j,
            forall |b: int| 0 <= b < j ==> #[trigger] row@[b] == v,
        decreases n - j,
    {
        row.push(v);
        j += 1;
    }
    row
}

/// An element-wise copy of a row.
fn copy_row(src: &Vec<i64>) -> (row: Vec<i64>)
    ensures
        row@ == src@,
{
    let mut row: Vec<i64> = Vec::new();
    let mut j: usize = 0;
    while j < src.len()
        invariant
            j <= src@.len(),
            row@ == src@.subrange(0, j as int),
        decreases src@.len() - j,
    {
        row.push(src[j]);
        j += 1;
    }
    proof {
        assert(row@ =~= src@);
    }
    row
}

/// Wrap a complete list of equally long rows as a matrix.
fn build_matrix(data: Vec<Vec<i64>>, m: usize, n: usize) -> (result: IntMatrix)
    requires
        data@.len() == m,
        forall |a: int| 0 <= a < m ==> (#[trigger] data@[a])@.len() == n,
        m >= 1 ==> n == data@[0]@.len(),
    ensures
        result.wf(),
        result.nrows() == m,
        result.ncols() == n,
        forall |i: int, j: int| 0 <= i < m && 0 <= j < n
            ==> #[trigger] result.entry(i, j) == data@[i]@[j],
{
    if m == 0 {
        return IntMatrix::zeros(m, n);
    }
    let ghost d = data@;
    match IntMatrix::from_rows(data) {
        Some(result) => result,
        None => {
            proof {
                assert forall |i: int| 0 <= i < d.len()
                    implies #[trigger] d[i]@.len() == d[0]@.len() by {
                }
                assert(false);
            }
            vstd::pervasive::unreached()
        }
    }
}

/// Element-wise sum of two matrices of the same shape. The entries of
/// a sum of non-negative bounded matrices stay in range.
fn mat_add(a: &IntMatrix, b: &IntMatrix) -> (result: IntMatrix)
    requires
        a.wf(),
        b.wf(),
        a.nrows() == b.nrows(),
        a.ncols() == b.ncols(),
        forall |i: int, j: int| 0 <= i < a.nrows() && 0 <= j < a.ncols()
            ==> fits_i64(#[trigger] a.entry(i, j) + b.entry(i, j)),
    ensures
        result.wf(),
        result.nrows() == a.nrows(),
        result.ncols() == a.ncols(),
        forall |i: int, j: int| 0 <= i < a.nrows() && 0 <= j < a.ncols()
            ==> #[trigger] result.entry(i, j) == a.entry(i, j) + b.entry(i, j),
{
    let m = a.rows();
    let n = a.cols();
    let mut data: Vec<Vec<i64>> = Vec::new();
    let mut i: usize = 0;
    while i < m
        invariant
            i <= m,
            m as int == a.nrows(),
            n as int == a.ncols(),
            a.wf(),
            b.wf(),
            a.nrows() == b.nrows(),
            a.ncols() == b.ncols(),
            forall |q: int, r: int| 0 <= q < a.nrows() && 0 <= r < a.ncols()
                ==> fits_i64(#[trigger] a.entry(q, r) + b.entry(q, r)),
            data@.len() == i,
            forall |q: int| 0 <= q < i ==> (#[trigger] data@[q])@.len() == n,
            forall |q: int, r: int| 0 <= q < i && 0 <= r < n
                ==> #[trigger] data@[q]@[r] == a.entry(q, r) + b.entry(q, r),
        decreases m - i,
    {
        let mut row: Vec<i64> = Vec::new();
        let mut j: usize = 0;
        while j < n
            invariant
                j <= n,
                i < m,
                m as int == a.nrows(),
                n as int == a.ncols(),
                a.wf(),
                b.wf(),
                a.nrows() == b.nrows(),
                a.ncols() == b.ncols(),
                forall |q: int, r: int| 0 <= q < a.nrows() && 0 <= r < a.ncols()
                    ==> fits_i64(#[trigger] a.entry(q, r) + b.entry(q, r)),
                row@.len() == j,
                forall |r: int| 0 <= r < j
                    ==> #[trigger] row@[r] == a.entry(i as int, r) + b.entry(i as int, r),
            decreases n - j,
        {
            let va = a.get(i, j);
            let vb = b.get(i, j);
            row.push(va + vb);
            j += 1;
        }
        data.push(row);
        i += 1;
    }
    build_matrix(data, m, n)
}

/// Generate a random Monge matrix as a sum of `m + n` random one-block
/// primitives. Every entry is between 0 and `m + n`, and the result
/// satisfies the Monge inequality on every adjacent window.
pub fn random_monge_matrix(m: usize, n: usize, rng: &mut rand::XorShiftRng) -> (result: IntMatrix)
    requires
        m as int + 1 <= isize::MAX as int,
        n as int + 1 <= isize::MAX as int,
        m as int + n as int <= i64::MAX as int,
    ensures
        result.wf(),
        result.nrows() == m,
        result.ncols() == n,
        monge_adjacent(&result),
        forall |i: int, j: int| 0 <= i < m && 0 <= j < n
            ==> 0 <= #[trigger] result.entry(i, j) <= m as int + n as int,
{
    let mut matrix = IntMatrix::zeros(m, n);
    let rounds = m + n;
    let mut k: usize = 0;
    while k < rounds
        invariant
            k <= rounds,
            rounds as int == m as int + n as int,
            m as int + 1 <= isize::MAX as int,
            n as int + 1 <= isize::MAX as int,
            m as int + n as int <= i64::MAX as int,
            matrix.wf(),
            matrix.nrows() == m,
            matrix.ncols() == n,
            monge_adjacent(&matrix),
            forall |i: int, j: int| 0 <= i < m && 0 <= j < n
                ==> 0 <= #[trigger] matrix.entry(i, j) <= k,
        decreases rounds - k,
    {
        let monge = if draw_bool(rng) {
            MongePrim::LowerLeftOnes
        } else {
            MongePrim::UpperRightOnes
        };
        let block = monge.to_matrix(m, n, rng);
        proof {
            assert(forall |i: int, j: int| 0 <= i < m && 0 <= j < n
                ==> 0 <= #[trigger] block.entry(i, j) <= 1);
            assert forall |i: int, j: int| 0 <= i < matrix.nrows() && 0 <= j < matrix.ncols()
                implies fits_i64(#[trigger] matrix.entry(i, j) + block.entry(i, j)) by {
                assert(0 <= matrix.entry(i, j) <= k);
                assert(0 <= block.entry(i, j) <= 1);
            }
        }
        let sum = mat_add(&matrix, &block);
        proof {
            assert forall |i: int, j: int| 0 <= i < sum.nrows() - 1 && 0 <= j < sum.ncols() - 1
                implies #[trigger] (sum.entry(i, j) + sum.entry(i + 1, j + 1))
                    <= sum.entry(i, j + 1) + sum.entry(i + 1, j) by {
                assert(matrix.entry(i, j) + matrix.entry(i + 1, j + 1)
                    <= matrix.entry(i, j + 1) + matrix.entry(i + 1, j));
                assert(block.entry(i, j) + block.entry(i + 1, j + 1)
                    <= block.entry(i, j + 1) + block.entry(i + 1, j));
            }
        }
        matrix = sum;
        k += 1;
    }
    matrix
}

} // verus!
