//! Algebraic laws of the matrix operations, proved over the models that
//! the operations' contracts use.
use vstd::prelude::*;

use crate::mat::{
    add_mat, cols_of, dot, flip_x_spec, id_mat, mul_mat, prod_seq, rows_of, shaped, transpose_spec,
};
use crate::sums::{
    col_at, col_sums, lemma_sum_prefix_pointwise, lemma_sum_prefix_scale,
    lemma_sum_prefix_scale_left, lemma_sum_prefix_unit, lemma_sum_swap, row_sums, sum_all,
    sum_prefix,
};
use vstd::arithmetic::mul::lemma_mul_is_associative;

verus! {

/// Transposing twice returns the original matrix model.
pub proof fn lemma_transpose_involutive<T>(m: Seq<Seq<T>>)
    requires
        shaped(m),
        1 <= rows_of(m),
        1 <= cols_of(m),
    ensures
        transpose_spec(transpose_spec(m)) == m,
{
    let t = transpose_spec(m);
    assert(cols_of(t) == rows_of(m));
    assert forall|i: int| 0 <= i < m.len() implies transpose_spec(t)[i] =~= m[i] by {
        assert(m[i].len() == cols_of(m));
    }
    assert(transpose_spec(t) =~~= m);
}

/// Reversing the first axis twice returns the original matrix model.
pub proof fn lemma_flip_x_involutive<T>(m: Seq<Seq<T>>)
    ensures
        flip_x_spec(flip_x_spec(m)) == m,
{
    assert(flip_x_spec(flip_x_spec(m)) =~= m);
}

/// Element-wise addition is commutative: the two operands of the same
/// shape can be swapped. (For integer elements, addition commutes.)
pub proof fn lemma_add_commutes(a: Seq<Seq<int>>, b: Seq<Seq<int>>)
    requires
        rows_of(a) == rows_of(b),
        forall|i: int| 0 <= i < a.len() ==> (#[trigger] a[i]).len() == b[i].len(),
    ensures
        add_mat(a, b) == add_mat(b, a),
{
    assert(add_mat(a, b) =~~= add_mat(b, a));
}

/// Multiplying on the right by the identity of the matching size
/// returns the matrix model unchanged.
pub proof fn lemma_multiply_identity_right(m: Seq<Seq<int>>)
    requires
        shaped(m),
        1 <= rows_of(m),
        1 <= cols_of(m),
    ensures
        mul_mat(m, id_mat(cols_of(m))) == m,
{
    let c = cols_of(m) as int;
    let idm = id_mat(cols_of(m));
    assert forall|x: int, z: int| 0 <= x < m.len() && 0 <= z < c implies mul_mat(m, idm)[x][z]
        == m[x][z] by {
        let s = prod_seq(m[x], col_at(idm, z));
        assert(s.len() == c);
        assert(s[z] == m[x][z]);
        lemma_sum_prefix_unit(s, c, z);
        assert(dot(m[x], col_at(idm, z)) == sum_prefix(s, c));
    }
    assert(mul_mat(m, idm) =~~= m);
}

/// Multiplying on the left by the identity of the matching size
/// returns the matrix model unchanged.
pub proof fn lemma_multiply_identity_left(m: Seq<Seq<int>>)
    requires
        shaped(m),
        1 <= rows_of(m),
        1 <= cols_of(m),
    ensures
        mul_mat(id_mat(rows_of(m)), m) == m,
{
    let n = m.len() as int;
    let idm = id_mat(rows_of(m));
    assert forall|x: int, z: int| 0 <= x < n && 0 <= z < cols_of(m) implies mul_mat(idm, m)[x][z]
        == m[x][z] by {
        let s = prod_seq(idm[x], col_at(m, z));
        assert(s.len() == n);
        assert(s[x] == m[x][z]);
        lemma_sum_prefix_unit(s, n, x);
        assert(dot(idm[x], col_at(m, z)) == sum_prefix(s, n));
    }
    assert(mul_mat(idm, m) =~~= m);
}

/// Matrix multiplication is associative: for compatibly shaped `a`
/// (`X` by `Y`), `b` (`Y` by `Z`) and `c` (`Z` by `W`), composing the
/// products in either order gives the same model. (For integer
/// elements, the ring operations are associative.)
pub proof fn lemma_multiply_associative(a: Seq<Seq<int>>, b: Seq<Seq<int>>, c: Seq<Seq<int>>)
    requires
        shaped(a),
        shaped(b),
        shaped(c),
        1 <= rows_of(a),
        1 <= cols_of(a),
        1 <= cols_of(b),
        1 <= cols_of(c),
        cols_of(a) == rows_of(b),
        cols_of(b) == rows_of(c),
    ensures
        mul_mat(mul_mat(a, b), c) == mul_mat(a, mul_mat(b, c)),
{
    let yn = b.len() as int;
    let zn = c.len() as int;
    let wn = cols_of(c) as int;
    let ab = mul_mat(a, b);
    let bc = mul_mat(b, c);
    assert(cols_of(ab) == cols_of(b));
    assert(cols_of(bc) == wn);
    assert forall|x: int, w: int| 0 <= x < a.len() && 0 <= w < wn implies mul_mat(ab, c)[x][w]
        == mul_mat(a, bc)[x][w] by {
        // The grid of all three-way products for this entry; the left
        // side sums it by columns, the right side by rows.
        let g = Seq::new(
            yn as nat,
            |y: int| Seq::new(zn as nat, |z: int| a[x][y] * b[y][z] * c[z][w]),
        );
        let ls = prod_seq(ab[x], col_at(c, w));
        assert(ls.len() == zn);
        assert forall|z: int| 0 <= z < zn implies ls[z] == col_sums(g, zn as nat)[z] by {
            let sv = prod_seq(a[x], col_at(b, z));
            assert(sv.len() == yn);
            let gz = col_at(g, z);
            assert(gz.len() == yn);
            assert(forall|y: int| 0 <= y < yn ==> #[trigger] gz[y] == sv[y] * c[z][w]);
            lemma_sum_prefix_scale(sv, gz, c[z][w], yn);
            assert(ab[x][z] == dot(a[x], col_at(b, z)));
            assert(dot(a[x], col_at(b, z)) == sum_prefix(sv, yn));
            assert(sum_all(gz) == sum_prefix(gz, yn));
        }
        lemma_sum_prefix_pointwise(ls, col_sums(g, zn as nat), zn);
        assert(mul_mat(ab, c)[x][w] == dot(ab[x], col_at(c, w)));
        assert(dot(ab[x], col_at(c, w)) == sum_prefix(ls, zn));
        let rs = prod_seq(a[x], col_at(bc, w));
        assert(rs.len() == yn);
        assert forall|y: int| 0 <= y < yn implies rs[y] == row_sums(g)[y] by {
            let sv = prod_seq(b[y], col_at(c, w));
            assert(sv.len() == zn);
            assert forall|z: int| 0 <= z < zn implies g[y][z] == a[x][y] * sv[z] by {
                lemma_mul_is_associative(a[x][y], b[y][z], c[z][w]);
            }
            lemma_sum_prefix_scale_left(sv, g[y], a[x][y], zn);
            assert(bc[y][w] == dot(b[y], col_at(c, w)));
            assert(dot(b[y], col_at(c, w)) == sum_prefix(sv, zn));
            assert(sum_all(g[y]) == sum_prefix(g[y], zn));
        }
        lemma_sum_prefix_pointwise(rs, row_sums(g), yn);
        assert(mul_mat(a, bc)[x][w] == dot(a[x], col_at(bc, w)));
        assert(dot(a[x], col_at(bc, w)) == sum_prefix(rs, yn));
        lemma_sum_swap(g, zn as nat);
        assert(sum_all(row_sums(g)) == sum_prefix(row_sums(g), yn));
        assert(sum_all(col_sums(g, zn as nat)) == sum_prefix(col_sums(g, zn as nat), zn));
    }
    assert(mul_mat(mul_mat(a, b), c) =~~= mul_mat(a, mul_mat(b, c)));
}

} // verus!
