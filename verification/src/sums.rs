//! Finite sums over integer sequences.
//!
//! `sum_prefix(s, k)` is the sum of the first `k` entries of `s`, added
//! in ascending index order; `sum_all` sums the whole sequence. The
//! lemmas here are the summation facts that the matrix contracts and
//! laws rest on: sums respect pointwise equality, split over pointwise
//! addition, pull a common factor out on either side, collapse when all
//! but one term vanish, and a rectangular grid sums to the same total by
//! rows as by columns.
use vstd::prelude::*;

verus! {

/// The sum of `s[0] + s[1] + ... + s[k - 1]`, in ascending index order.
pub open spec fn sum_prefix(s: Seq<int>, k: int) -> int
    decreases k,
{
    if k <= 0 {
        0
    } else {
        sum_prefix(s, k - 1) + s[k - 1]
    }
}

/// The sum of every entry of `s`.
pub open spec fn sum_all(s: Seq<int>) -> int {
    sum_prefix(s, s.len() as int)
}

/// Sums only read the first `k` entries.
pub proof fn lemma_sum_prefix_pointwise(s: Seq<int>, t: Seq<int>, k: int)
    requires
        forall|i: int| 0 <= i < k ==> s[i] == t[i],
    ensures
        sum_prefix(s, k) == sum_prefix(t, k),
    decreases k,
{
    if k > 0 {
        lemma_sum_prefix_pointwise(s, t, k - 1);
    }
}

/// A sum of zeros is zero.
pub proof fn lemma_sum_prefix_zero(s: Seq<int>, k: int)
    requires
        forall|i: int| 0 <= i < k ==> s[i] == 0,
    ensures
        sum_prefix(s, k) == 0,
    decreases k,
{
    if k > 0 {
        lemma_sum_prefix_zero(s, k - 1);
    }
}

/// A pointwise sum of two sequences sums to the sum of their sums.
pub proof fn lemma_sum_prefix_add(s: Seq<int>, t: Seq<int>, u: Seq<int>, k: int)
    requires
        forall|i: int| 0 <= i < k ==> u[i] == s[i] + t[i],
    ensures
        sum_prefix(u, k) == sum_prefix(s, k) + sum_prefix(t, k),
    decreases k,
{
    if k > 0 {
        lemma_sum_prefix_add(s, t, u, k - 1);
    }
}

/// A common right factor distributes out of a sum.
pub proof fn lemma_sum_prefix_scale(s: Seq<int>, t: Seq<int>, c: int, k: int)
    requires
        forall|i: int| 0 <= i < k ==> t[i] == s[i] * c,
    ensures
        sum_prefix(t, k) == sum_prefix(s, k) * c,
    decreases k,
{
    if k > 0 {
        lemma_sum_prefix_scale(s, t, c, k - 1);
        assert((sum_prefix(s, k - 1) + s[k - 1]) * c == sum_prefix(s, k - 1) * c + s[k - 1] * c)
            by (nonlinear_arith);
    }
}

/// A common left factor distributes out of a sum.
pub proof fn lemma_sum_prefix_scale_left(s: Seq<int>, t: Seq<int>, c: int, k: int)
    requires
        forall|i: int| 0 <= i < k ==> t[i] == c * s[i],
    ensures
        sum_prefix(t, k) == c * sum_prefix(s, k),
    decreases k,
{
    if k > 0 {
        lemma_sum_prefix_scale_left(s, t, c, k - 1);
        assert(c * (sum_prefix(s, k - 1) + s[k - 1]) == c * sum_prefix(s, k - 1) + c * s[k - 1])
            by (nonlinear_arith);
    }
}

/// A sum whose terms vanish everywhere but at index `j` is its `j`-th term.
pub proof fn lemma_sum_prefix_unit(s: Seq<int>, k: int, j: int)
    requires
        0 <= j < k,
        forall|i: int| 0 <= i < k && i != j ==> s[i] == 0,
    ensures
        sum_prefix(s, k) == s[j],
    decreases k,
{
    if j == k - 1 {
        lemma_sum_prefix_zero(s, k - 1);
    } else {
        lemma_sum_prefix_unit(s, k - 1, j);
    }
}

/// The entries of column `z` of a matrix model.
pub open spec fn col_at(m: Seq<Seq<int>>, z: int) -> Seq<int> {
    Seq::new(m.len(), |y: int| m[y][z])
}

/// The sum of each row of `m`.
pub open spec fn row_sums(m: Seq<Seq<int>>) -> Seq<int> {
    Seq::new(m.len(), |i: int| sum_all(m[i]))
}

/// The sum of each of the `c` columns of `m`.
pub open spec fn col_sums(m: Seq<Seq<int>>, c: nat) -> Seq<int> {
    Seq::new(c, |j: int| sum_all(col_at(m, j)))
}

/// A rectangular grid of integers has one total: summing each row and
/// adding the row sums gives the same value as summing each column and
/// adding the column sums.
pub proof fn lemma_sum_swap(m: Seq<Seq<int>>, c: nat)
    requires
        forall|i: int| 0 <= i < m.len() ==> (#[trigger] m[i]).len() == c,
    ensures
        sum_all(row_sums(m)) == sum_all(col_sums(m, c)),
    decreases m.len(),
{
    if m.len() == 0 {
        assert forall|j: int| 0 <= j < c implies col_sums(m, c)[j] == 0 by {
            assert(col_at(m, j).len() == 0);
        }
        lemma_sum_prefix_zero(col_sums(m, c), c as int);
    } else {
        let m0 = m.drop_last();
        let r = m.last();
        let n0 = m0.len() as int;
        lemma_sum_swap(m0, c);
        // Row side: the last row's sum splits off.
        assert(sum_all(row_sums(m)) == sum_prefix(row_sums(m), n0) + sum_all(r));
        lemma_sum_prefix_pointwise(row_sums(m), row_sums(m0), n0);
        // Column side: each column of `m` is the matching column of `m0`
        // extended by one entry of the last row.
        assert forall|j: int| 0 <= j < c implies col_sums(m, c)[j] == col_sums(m0, c)[j] + r[j] by {
            lemma_sum_prefix_pointwise(col_at(m, j), col_at(m0, j), n0);
            assert(sum_all(col_at(m, j)) == sum_prefix(col_at(m, j), n0) + col_at(m, j)[n0]);
        }
        lemma_sum_prefix_add(col_sums(m0, c), r, col_sums(m, c), c as int);
        assert(sum_prefix(r, c as int) == sum_all(r));
    }
}

} // verus!
