//! The matrix abstraction shared by all minima-finding strategies.
//!
//! Algorithms access a matrix through the [`MatrixAccess`] trait: a
//! capability-style accessor taking two indices and returning a value,
//! with no assumption about backing storage. [`IntMatrix`] is the
//! materialized row-major implementation; [`Transposed`] presents the
//! same storage with the axes swapped, so that one core can serve both
//! row- and column-minima requests without copying.

use vstd::prelude::*;

verus! {

/// Lexicographic order on (value, index) pairs. A lane minimum is the
/// entry whose pair is least in this order, which makes the left-most
/// entry win all ties.
pub open spec fn lex_le(v1: int, i1: int, v2: int, i2: int) -> bool {
    v1 < v2 || (v1 == v2 && i1 <= i2)
}

/// A read-only two-dimensional grid of integers.
pub trait MatrixAccess: Sized {
    /// Number of rows.
    spec fn nrows(&self) -> int;

    /// Number of columns.
    spec fn ncols(&self) -> int;

    /// The mathematical value stored at `(i, j)`.
    spec fn entry(&self, i: int, j: int) -> int;

    /// Which positions a caller may actually read. Materialized
    /// matrices allow every in-bounds position; lazily generated ones
    /// may restrict access further.
    spec fn queryable(&self, i: int, j: int) -> bool;

    /// Read the value at `(i, j)`.
    fn get(&self, i: usize, j: usize) -> (v: i64)
        requires
            i < self.nrows(),
            j < self.ncols(),
            self.queryable(i as int, j as int),
        ensures
            v as int == self.entry(i as int, j as int),
    ;
}

/// `r` is the row holding the left-most minimum of column `c` among
/// the candidate rows in `rows`.
pub open spec fn is_min_in<M: MatrixAccess>(m: &M, rows: Seq<usize>, c: int, r: usize) -> bool {
    &&& rows.contains(r)
    &&& forall |k: int| 0 <= k < rows.len()
            ==> lex_le(m.entry(r as int, c), r as int, m.entry(#[trigger] rows[k] as int, c), rows[k] as int)
}

/// `c` is the column of the left-most minimum of row `i`.
pub open spec fn is_row_min<M: MatrixAccess>(m: &M, i: int, c: int) -> bool {
    &&& 0 <= c < m.ncols()
    &&& forall |c2: int| 0 <= c2 < m.ncols()
            ==> lex_le(m.entry(i, c), c, #[trigger] m.entry(i, c2), c2)
}

/// `r` is the row of the left-most minimum of column `j`.
pub open spec fn is_col_min<M: MatrixAccess>(m: &M, j: int, r: int) -> bool {
    &&& 0 <= r < m.nrows()
    &&& forall |r2: int| 0 <= r2 < m.nrows()
            ==> lex_le(m.entry(r, j), r, #[trigger] m.entry(r2, j), r2)
}

/// The defining implication of total monotonicity for one choice of
/// two rows `r1 < r2` and two columns `c1 < c2`: if the upper row is
/// strictly worse at the left column, it stays strictly worse at the
/// right column.
pub open spec fn tm_pair<M: MatrixAccess>(m: &M, r1: int, r2: int, c1: int, c2: int) -> bool {
    m.entry(r1, c1) > m.entry(r2, c1) ==> m.entry(r1, c2) > m.entry(r2, c2)
}

/// The row-minima form of the implication for one choice of rows and
/// columns: if the left column is strictly worse within the upper row,
/// it stays strictly worse within the lower row. This is the direction
/// that makes the left-most row-minima positions move right as the row
/// index grows.
pub open spec fn tm_pair_rowwise<M: MatrixAccess>(m: &M, r1: int, r2: int, c1: int, c2: int) -> bool {
    m.entry(r1, c1) > m.entry(r1, c2) ==> m.entry(r2, c1) > m.entry(r2, c2)
}

/// The matrix is totally monotone in the row-minima direction: every
/// 2x2 submatrix, adjacent or not, satisfies the row-wise implication.
pub open spec fn totally_monotone_rowwise<M: MatrixAccess>(m: &M) -> bool {
    forall |r1: int, r2: int, c1: int, c2: int|
        0 <= r1 < r2 < m.nrows() && 0 <= c1 < c2 < m.ncols()
            ==> #[trigger] tm_pair_rowwise(m, r1, r2, c1, c2)
}

/// The matrix is totally monotone in the column-minima direction:
/// every 2x2 submatrix, adjacent or
/// not, is monotone.
pub open spec fn totally_monotone<M: MatrixAccess>(m: &M) -> bool {
    forall |r1: int, r2: int, c1: int, c2: int|
        0 <= r1 < r2 < m.nrows() && 0 <= c1 < c2 < m.ncols()
            ==> #[trigger] tm_pair(m, r1, r2, c1, c2)
}

/// Total monotonicity restricted to a set of candidate rows and
/// columns, which is all the SMAWK recursion needs.
pub open spec fn tm_on<M: MatrixAccess>(m: &M, rows: Seq<usize>, cols: Seq<usize>) -> bool {
    forall |r1: usize, r2: usize, c1: usize, c2: usize|
        rows.contains(r1) && rows.contains(r2) && cols.contains(c1) && cols.contains(c2)
            && r1 < r2 && c1 < c2
            ==> #[trigger] tm_pair(m, r1 as int, r2 as int, c1 as int, c2 as int)
}

/// The elements of the sequence are strictly increasing.
pub open spec fn strictly_sorted(s: Seq<usize>) -> bool {
    forall |k1: int, k2: int| 0 <= k1 < k2 < s.len() ==> #[trigger] s[k1] < #[trigger] s[k2]
}


/// Every candidate row and column index is in bounds and may be read.
pub open spec fn valid_pairs<M: MatrixAccess>(m: &M, rows: Seq<usize>, cols: Seq<usize>) -> bool {
    forall |r: usize, c: usize| #![trigger rows.contains(r), cols.contains(c)]
        rows.contains(r) && cols.contains(c)
            ==> r < m.nrows() && c < m.ncols() && m.queryable(r as int, c as int)
}

/// A lane minimum beats (in the lexicographic sense) every candidate.
pub proof fn lemma_min_le<M: MatrixAccess>(m: &M, rows: Seq<usize>, c: int, r: usize, w: usize)
    requires
        is_min_in(m, rows, c, r),
        rows.contains(w),
    ensures
        lex_le(m.entry(r as int, c), r as int, m.entry(w as int, c), w as int),
{
    let kw = choose |kw: int| 0 <= kw < rows.len() && rows[kw] == w;
    assert(lex_le(m.entry(r as int, c), r as int, m.entry(rows[kw] as int, c), rows[kw] as int));
}

/// Every non-empty candidate list has a left-most minimum in each lane.
pub proof fn lemma_min_exists<M: MatrixAccess>(m: &M, rows: Seq<usize>, c: int) -> (rb: usize)
    requires
        rows.len() > 0,
    ensures
        is_min_in(m, rows, c, rb),
    decreases rows.len(),
{
    if rows.len() == 1 {
        let rb = rows[0];
        assert(rows.contains(rb));
        rb
    } else {
        let sub = rows.drop_last();
        let rb0 = lemma_min_exists(m, sub, c);
        let last = rows[rows.len() - 1];
        let rb = if lex_le(m.entry(rb0 as int, c), rb0 as int, m.entry(last as int, c), last as int) {
            rb0
        } else {
            last
        };
        assert(rows.contains(rb)) by {
            if rb == rb0 {
                let k0 = choose |k0: int| 0 <= k0 < sub.len() && sub[k0] == rb0;
                assert(rows[k0] == rb0);
            } else {
                assert(rows[rows.len() - 1] == last);
            }
        }
        assert forall |k: int| 0 <= k < rows.len()
            implies lex_le(m.entry(rb as int, c), rb as int, m.entry(#[trigger] rows[k] as int, c), rows[k] as int) by {
            if k < rows.len() - 1 {
                assert(sub[k] == rows[k]);
                assert(sub.contains(sub[k]));
                lemma_min_le(m, sub, c, rb0, sub[k]);
            }
        }
        rb
    }
}

/// In a totally monotone matrix the left-most lane minima move weakly
/// in one direction: the minimum row of a later column is never above
/// the minimum row of an earlier column.
pub proof fn lemma_argmin_monotone<M: MatrixAccess>(
    m: &M, rows: Seq<usize>, cols: Seq<usize>, c1: usize, c2: usize, r1: usize, r2: usize,
)
    requires
        tm_on(m, rows, cols),
        cols.contains(c1),
        cols.contains(c2),
        c1 < c2,
        is_min_in(m, rows, c1 as int, r1),
        is_min_in(m, rows, c2 as int, r2),
    ensures
        r1 <= r2,
{
    if r1 > r2 {
        lemma_min_le(m, rows, c1 as int, r1, r2);
        assert(tm_pair(m, r2 as int, r1 as int, c1 as int, c2 as int));
        lemma_min_le(m, rows, c2 as int, r2, r1);
        assert(false);
    }
}

/// A totally monotone matrix is totally monotone on every choice of
/// candidate rows and columns.
pub proof fn lemma_tm_full<M: MatrixAccess>(m: &M, rows: Seq<usize>, cols: Seq<usize>)
    requires
        totally_monotone(m),
        forall |k: int| 0 <= k < rows.len() ==> #[trigger] rows[k] < m.nrows(),
        forall |k: int| 0 <= k < cols.len() ==> #[trigger] cols[k] < m.ncols(),
    ensures
        tm_on(m, rows, cols),
{
    assert forall |r1: usize, r2: usize, c1: usize, c2: usize|
        rows.contains(r1) && rows.contains(r2) && cols.contains(c1) && cols.contains(c2)
            && r1 < r2 && c1 < c2
        implies #[trigger] tm_pair(m, r1 as int, r2 as int, c1 as int, c2 as int) by {
        let q1 = choose |q: int| 0 <= q < rows.len() && rows[q] == r1;
        let q2 = choose |q: int| 0 <= q < rows.len() && rows[q] == r2;
        let q3 = choose |q: int| 0 <= q < cols.len() && cols[q] == c1;
        let q4 = choose |q: int| 0 <= q < cols.len() && cols[q] == c2;
        assert(rows[q1] < m.nrows());
        assert(rows[q2] < m.nrows());
        assert(cols[q3] < m.ncols());
        assert(cols[q4] < m.ncols());
    }
}

/// A materialized matrix of `i64` values, stored as a list of rows of
/// equal length.
pub struct IntMatrix {
    rows: usize,
    cols: usize,
    data: Vec<Vec<i64>>,
}

impl IntMatrix {
    /// The storage really holds `rows` rows of `cols` values each.
    pub closed spec fn wf(&self) -> bool {
        &&& self.data@.len() == self.rows
    &&& forall |i: int| 0 <= i < self.data@.len() ==> (#[trigger] self.data@[i])@.len() == self.cols
    }

    /// Build a matrix from a list of equally long rows. Returns `None`
    /// when the rows do not all have the same length. An empty list
    /// gives the 0 x 0 matrix.
    pub fn from_rows(rows: Vec<Vec<i64>>) -> (result: Option<IntMatrix>)
        ensures
            (match result {
                Some(m) => {
                    &&& m.wf()
                    &&& m.nrows() == rows@.len()
                    &&& m.ncols() == (if rows@.len() == 0 { 0int } else { rows@[0]@.len() as int })
                    &&& forall |i: int, j: int| 0 <= i < rows@.len() && 0 <= j < rows@[i]@.len()
                            ==> m.entry(i, j) == #[trigger] rows@[i]@[j]
                },
                None => true,
            }),
            result is Some <==> (forall |i: int| 0 <= i < rows@.len()
                ==> #[trigger] rows@[i]@.len() == rows@[0]@.len()),
    {
        let m = rows.len();
        if m == 0 {
            return Some(IntMatrix { rows: 0, cols: 0, data: rows });
        }
        let n = rows[0].len();
        let mut i: usize = 0;
        while i < m
            invariant
                0 <= i <= m,
                m == rows@.len(),
                n == rows@[0]@.len(),
                forall |k: int| 0 <= k < i ==> #[trigger] rows@[k]@.len() == n,
            decreases m - i,
        {
            if rows[i].len() != n {
                return None;
            }
            i += 1;
        }
        Some(IntMatrix { rows: m, cols: n, data: rows })
    }

    /// The `m` x `n` matrix of zero entries.
    pub fn zeros(m: usize, n: usize) -> (result: IntMatrix)
        ensures
            result.wf(),
            result.nrows() == m,
            result.ncols() == n,
            forall |i: int, j: int| 0 <= i < m && 0 <= j < n ==> #[trigger] result.entry(i, j) == 0,
    {
        let mut data: Vec<Vec<i64>> = Vec::new();
        let mut i: usize = 0;
        while i < m
            invariant
                i <= m,
                data@.len() == i,
                forall |a: int| 0 <= a < i ==> (#[trigger] data@[a])@.len() == n,
                forall |a: int, b: int| 0 <= a < i && 0 <= b < n ==> #[trigger] data@[a]@[b] == 0,
            decreases m - i,
        {
            let mut row: Vec<i64> = Vec::new();
            let mut j: usize = 0;
            while j < n
                invariant
                    j <= n,
                    row@.len() == j,
                    forall |b: int| 0 <= b < j ==> #[trigger] row@[b] == 0,
                decreases n - j,
            {
                row.push(0);
                j += 1;
            }
            data.push(row);
            i += 1;
        }
        IntMatrix { rows: m, cols: n, data }
    }

    /// Number of rows.
    pub fn rows(&self) -> (r: usize)
        ensures
            r as int == self.nrows(),
    {
        self.rows
    }

    /// Number of columns.
    pub fn cols(&self) -> (c: usize)
        ensures
            c as int == self.ncols(),
    {
        self.cols
    }

    /// The matrix contents as a list of rows.
    pub fn to_rows(&self) -> (rows: Vec<Vec<i64>>)
        requires
            self.wf(),
        ensures
            rows@.len() == self.nrows(),
            forall |i: int| 0 <= i < self.nrows() ==> (#[trigger] rows@[i])@.len() == self.ncols(),
            forall |i: int, j: int| 0 <= i < self.nrows() && 0 <= j < self.ncols()
                ==> rows@[i]@[j] == #[trigger] self.entry(i, j),
    {
        let m = self.rows;
        let n = self.cols;
        let mut rows: Vec<Vec<i64>> = Vec::new();
        let mut i: usize = 0;
        while i < m
            invariant
                0 <= i <= m,
                self.wf(),
                m == self.nrows(),
                n == self.ncols(),
                rows@.len() == i,
                forall |a: int| 0 <= a < i ==> (#[trigger] rows@[a])@.len() == n,
                forall |a: int, b: int| 0 <= a < i && 0 <= b < n
                    ==> rows@[a]@[b] == #[trigger] self.entry(a, b),
            decreases m - i,
        {
            let mut row: Vec<i64> = Vec::new();
            let mut j: usize = 0;
            while j < n
                invariant
                    0 <= j <= n,
                    i < m,
                    self.wf(),
                    m == self.nrows(),
                    n == self.ncols(),
                    row@.len() == j,
                    forall |b: int| 0 <= b < j ==> #[trigger] row@[b] == self.entry(i as int, b),
                decreases n - j,
            {
                let v = self.get(i, j);
                row.push(v);
                j += 1;
            }
            rows.push(row);
            i += 1;
        }
        rows
    }

    /// The transposed copy of the matrix: entry `(i, j)` of the result
    /// is entry `(j, i)` of `self`.
    pub fn reversed_axes(&self) -> (t: IntMatrix)
        requires
            self.wf(),
        ensures
            t.wf(),
            t.nrows() == self.ncols(),
            t.ncols() == self.nrows(),
            forall |i: int, j: int| 0 <= i < t.nrows() && 0 <= j < t.ncols()
                ==> #[trigger] t.entry(i, j) == self.entry(j, i),
    {
        let m = self.cols;
        let n = self.rows;
        let mut data: Vec<Vec<i64>> = Vec::new();
        let mut i: usize = 0;
        while i < m
            invariant
                0 <= i <= m,
                self.wf(),
                m == self.ncols(),
                n == self.nrows(),
                data@.len() == i,
                forall |a: int| 0 <= a < i ==> (#[trigger] data@[a])@.len() == n,
                forall |a: int, b: int| 0 <= a < i && 0 <= b < n
                    ==> data@[a]@[b] == #[trigger] self.entry(b, a),
            decreases m - i,
        {
            let mut row: Vec<i64> = Vec::new();
            let mut j: usize = 0;
            while j < n
                invariant
                    0 <= j <= n,
                    i < m,
                    self.wf(),
                    m == self.ncols(),
                    n == self.nrows(),
                    row@.len() == j,
                    forall |b: int| 0 <= b < j ==> #[trigger] row@[b] == self.entry(b, i as int),
                decreases n - j,
            {
                let v = self.get(j, i);
                row.push(v);
                j += 1;
            }
            data.push(row);
            i += 1;
        }
        IntMatrix { rows: m, cols: n, data }
    }
}

impl MatrixAccess for IntMatrix {
    closed spec fn nrows(&self) -> int {
        self.rows as int
    }

    closed spec fn ncols(&self) -> int {
        self.cols as int
    }

    closed spec fn entry(&self, i: int, j: int) -> int {
        self.data@[i]@[j] as int
    }

    open spec fn queryable(&self, i: int, j: int) -> bool {
        self.wf()
    }

    fn get(&self, i: usize, j: usize) -> (v: i64)
    {
        self.data[i][j]
    }
}

/// The same matrix with the axes swapped: a zero-cost view used to run
/// the column-minima core in the row direction.
pub struct Transposed<'a> {
    /// The underlying matrix.
    pub m: &'a IntMatrix,
}

impl<'a> MatrixAccess for Transposed<'a> {
    open spec fn nrows(&self) -> int {
        self.m.ncols()
    }

    open spec fn ncols(&self) -> int {
        self.m.nrows()
    }

    open spec fn entry(&self, i: int, j: int) -> int {
        self.m.entry(j, i)
    }

    open spec fn queryable(&self, i: int, j: int) -> bool {
        self.m.wf()
    }

    fn get(&self, i: usize, j: usize) -> (v: i64)
    {
        self.m.get(j, i)
    }
}

} // verus!
