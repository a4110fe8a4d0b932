//! Relations between the strategies, stated and proved once.
//!
//! The minima functions pin their results down to the same
//! specification, so any two of them agree and re-running one is
//! deterministic; the Monge property implies the total monotonicity
//! they require; and the online engine agrees with the full-column
//! minima whenever those lie strictly above the diagonal.

use vstd::prelude::*;

use crate::matrix::{
    IntMatrix, MatrixAccess, is_col_min, is_row_min, lex_le, tm_pair, tm_pair_rowwise,
    totally_monotone, totally_monotone_rowwise,
};
use crate::monge::{fits_i64, is_monge_spec, monge_adjacent, monge_check, monge_window_ok};
use crate::online::{OnlineMatrix, is_above_min};

verus! {

/// Cross-strategy agreement and idempotence for column minima: any two
/// sequences that satisfy the column-minima specification are equal,
/// entry for entry. Since the brute-force, divide-and-conquer and
/// SMAWK strategies all promise exactly that specification, their
/// outputs coincide, and running any of them twice on the same matrix
/// gives identical output.
pub proof fn lemma_column_minima_agree(m: &IntMatrix, r1: Seq<usize>, r2: Seq<usize>)
    requires
        r1.len() == m.ncols(),
        r2.len() == m.ncols(),
        forall |j: int| 0 <= j < m.ncols() ==> is_col_min(m, j, #[trigger] r1[j] as int),
        forall |j: int| 0 <= j < m.ncols() ==> is_col_min(m, j, #[trigger] r2[j] as int),
    ensures
        r1 == r2,
{
    assert forall |j: int| 0 <= j < r1.len() implies r1[j] == r2[j] by {
        assert(is_col_min(m, j, r1[j] as int));
        assert(is_col_min(m, j, r2[j] as int));
        assert(lex_le(m.entry(r1[j] as int, j), r1[j] as int, m.entry(r2[j] as int, j), r2[j] as int));
        assert(lex_le(m.entry(r2[j] as int, j), r2[j] as int, m.entry(r1[j] as int, j), r1[j] as int));
    }
    assert(r1 =~= r2);
}

/// Cross-strategy agreement and idempotence for row minima.
pub proof fn lemma_row_minima_agree(m: &IntMatrix, r1: Seq<usize>, r2: Seq<usize>)
    requires
        r1.len() == m.nrows(),
        r2.len() == m.nrows(),
        forall |i: int| 0 <= i < m.nrows() ==> is_row_min(m, i, #[trigger] r1[i] as int),
        forall |i: int| 0 <= i < m.nrows() ==> is_row_min(m, i, #[trigger] r2[i] as int),
    ensures
        r1 == r2,
{
    assert forall |i: int| 0 <= i < r1.len() implies r1[i] == r2[i] by {
        assert(is_row_min(m, i, r1[i] as int));
        assert(is_row_min(m, i, r2[i] as int));
        assert(lex_le(m.entry(i, r1[i] as int), r1[i] as int, m.entry(i, r2[i] as int), r2[i] as int));
        assert(lex_le(m.entry(i, r2[i] as int), r2[i] as int, m.entry(i, r1[i] as int), r1[i] as int));
    }
    assert(r1 =~= r2);
}

/// A Monge matrix is totally monotone in both directions, so it is
/// eligible for every minima strategy in this crate.
pub proof fn lemma_monge_is_totally_monotone<M: MatrixAccess>(m: &M)
    requires
        is_monge_spec(m),
    ensures
        totally_monotone(m),
        totally_monotone_rowwise(m),
{
    assert forall |r1: int, r2: int, c1: int, c2: int|
        0 <= r1 < r2 < m.nrows() && 0 <= c1 < c2 < m.ncols()
        implies #[trigger] tm_pair(m, r1, r2, c1, c2) by {
        assert(m.entry(r1, c1) + m.entry(r2, c2) <= m.entry(r1, c2) + m.entry(r2, c1));
    }
    assert forall |r1: int, r2: int, c1: int, c2: int|
        0 <= r1 < r2 < m.nrows() && 0 <= c1 < c2 < m.ncols()
        implies #[trigger] tm_pair_rowwise(m, r1, r2, c1, c2) by {
        assert(m.entry(r1, c1) + m.entry(r2, c2) <= m.entry(r1, c2) + m.entry(r2, c1));
    }
}

/// One telescoping step: the Monge inequality for two adjacent columns
/// and any pair of rows follows from the adjacent windows between the
/// rows.
proof fn lemma_monge_rows<M: MatrixAccess>(m: &M, i1: int, i2: int, j: int)
    requires
        monge_adjacent(m),
        0 <= i1 < i2 < m.nrows(),
        0 <= j < m.ncols() - 1,
    ensures
        m.entry(i1, j) + m.entry(i2, j + 1) <= m.entry(i1, j + 1) + m.entry(i2, j),
    decreases i2 - i1,
{
    if i2 > i1 + 1 {
        lemma_monge_rows(m, i1, i2 - 1, j);
        assert(m.entry(i2 - 1, j) + m.entry(i2, j + 1) <= m.entry(i2 - 1, j + 1) + m.entry(i2, j));
    }
}

/// The telescoping step in the column direction.
proof fn lemma_monge_rect<M: MatrixAccess>(m: &M, i1: int, i2: int, j1: int, j2: int)
    requires
        monge_adjacent(m),
        0 <= i1 < i2 < m.nrows(),
        0 <= j1 < j2 < m.ncols(),
    ensures
        m.entry(i1, j1) + m.entry(i2, j2) <= m.entry(i1, j2) + m.entry(i2, j1),
    decreases j2 - j1,
{
    if j2 > j1 + 1 {
        lemma_monge_rect(m, i1, i2, j1, j2 - 1);
        lemma_monge_rows(m, i1, i2, j2 - 1);
    } else {
        lemma_monge_rows(m, i1, i2, j1);
    }
}

/// The Monge inequality on every adjacent 2x2 window extends, by
/// telescoping, to every pair of rows and columns. This is why the
/// verifier only scans adjacent windows.
pub proof fn lemma_adjacent_monge_is_monge<M: MatrixAccess>(m: &M)
    requires
        monge_adjacent(m),
    ensures
        is_monge_spec(m),
{
    assert forall |i1: int, i2: int, j1: int, j2: int|
        #![trigger m.entry(i1, j1), m.entry(i2, j2)]
        0 <= i1 < i2 < m.nrows() && 0 <= j1 < j2 < m.ncols()
        implies m.entry(i1, j1) + m.entry(i2, j2)
            <= m.entry(i1, j2) + m.entry(i2, j1) by {
        lemma_monge_rect(m, i1, i2, j1, j2);
    }
}

/// On a matrix where no window's sums overflow, the overflow-safe
/// verdict of the verifier coincides with the exact adjacent Monge
/// inequality.
pub proof fn lemma_check_exact_without_overflow<M: MatrixAccess>(m: &M)
    requires
        forall |i: int, j: int| 0 <= i < m.nrows() - 1 && 0 <= j < m.ncols() - 1
            ==> fits_i64(#[trigger] m.entry(i, j) + m.entry(i + 1, j + 1))
                && fits_i64(m.entry(i, j + 1) + m.entry(i + 1, j)),
    ensures
        monge_check(m) <==> monge_adjacent(m),
{
    if monge_check(m) {
        assert forall |i: int, j: int| #![trigger m.entry(i, j)]
            0 <= i < m.nrows() - 1 && 0 <= j < m.ncols() - 1
            implies m.entry(i, j) + m.entry(i + 1, j + 1)
                <= m.entry(i, j + 1) + m.entry(i + 1, j) by {
            assert(monge_window_ok(m.entry(i, j), m.entry(i + 1, j + 1),
                m.entry(i, j + 1), m.entry(i + 1, j)));
            assert(fits_i64(m.entry(i, j) + m.entry(i + 1, j + 1)));
        }
        assert(monge_adjacent(m));
    }
    if monge_adjacent(m) {
        assert forall |i: int, j: int| 0 <= i < m.nrows() - 1 && 0 <= j < m.ncols() - 1
            implies #[trigger] monge_window_ok(m.entry(i, j), m.entry(i + 1, j + 1),
                m.entry(i, j + 1), m.entry(i + 1, j)) by {
            assert(m.entry(i, j) + m.entry(i + 1, j + 1)
                <= m.entry(i, j + 1) + m.entry(i + 1, j));
            assert(fits_i64(m.entry(i, j) + m.entry(i + 1, j + 1)));
        }
        assert(monge_check(m));
    }
}

/// The online engine agrees with the brute-force column minima: on a
/// square matrix whose full-column left-most minima lie strictly above
/// the diagonal, the pair the online specification fixes for a column
/// is exactly the brute-force minimum row and its value.
pub proof fn lemma_online_agrees_with_full<M: OnlineMatrix>(
    m: &M, d: &IntMatrix, j: int, r: int, p: (usize, i64),
)
    requires
        d.nrows() == m.size(),
        d.ncols() == m.size(),
        forall |a: int, b: int| 0 <= a < b < m.size() ==> #[trigger] d.entry(a, b) == m.value(a, b),
        1 <= j < m.size(),
        is_col_min(d, j, r),
        r < j,
        is_above_min(m, j, p),
    ensures
        p.0 as int == r,
        p.1 as int == d.entry(r, j),
{
    assert(lex_le(d.entry(r, j), r, d.entry(p.0 as int, j), p.0 as int));
    assert(d.entry(p.0 as int, j) == m.value(p.0 as int, j));
    assert(d.entry(r, j) == m.value(r, j));
    assert(lex_le(p.1 as int, p.0 as int, m.value(r, j), r));
}

} // verus!
