//! The matrix container and its operations.
//!
//! A `Matrix<T>` is a dense two-dimensional array with a fixed shape
//! `(X, Y)`: `X` rows of `Y` elements, logically indexed `[x][y]` with
//! `0 <= x < X` and `0 <= y < Y`. The shape is chosen once, at
//! construction, and every element is supplied up front; a matrix is
//! immutable afterwards, and every transform returns a new matrix.
//! Construction rejects a zero dimension and a wrong element count with
//! [`ShapeMismatch`]; once a matrix exists, the operations whose shape
//! demands are met by their `requires` clauses are total.
//!
//! The mathematical model of a matrix is its view: a sequence of rows,
//! each row a sequence of elements. The spec functions below
//! ([`transpose_spec`], [`flip_x_spec`], [`add_mat`], [`mul_mat`],
//! [`id_mat`]) say what each operation returns, and `src/laws.rs` proves
//! the algebraic laws that relate them.
use vstd::prelude::*;

use crate::sums::{col_at, sum_all, sum_prefix};

verus! {

/// Error returned when construction is given a zero dimension or an
/// element count that does not equal `rows * cols`.
#[derive(Debug, PartialEq, Eq)]
pub struct ShapeMismatch;

/// Number of rows of a matrix model (the extent of the first index).
pub open spec fn rows_of<T>(m: Seq<Seq<T>>) -> nat {
    m.len()
}

/// Number of columns of a matrix model (the extent of the second index).
pub open spec fn cols_of<T>(m: Seq<Seq<T>>) -> nat {
    if m.len() == 0 {
        0
    } else {
        m[0].len()
    }
}

/// The model is rectangular: every row has the same length.
pub open spec fn shaped<T>(m: Seq<Seq<T>>) -> bool {
    forall|i: int| 0 <= i < m.len() ==> (#[trigger] m[i]).len() == cols_of(m)
}

/// Transpose of a model: entry `[x][y]` of the result is entry `[y][x]`
/// of the argument.
pub open spec fn transpose_spec<T>(m: Seq<Seq<T>>) -> Seq<Seq<T>> {
    Seq::new(cols_of(m), |i: int| Seq::new(rows_of(m), |j: int| m[j][i]))
}

/// First-axis reversal of a model: row `x` of the result is row
/// `X - 1 - x` of the argument.
pub open spec fn flip_x_spec<T>(m: Seq<Seq<T>>) -> Seq<Seq<T>> {
    Seq::new(m.len(), |i: int| m[m.len() - 1 - i])
}

/// A dense matrix with `X >= 1` rows and `Y >= 1` columns, stored
/// row-major in a single buffer of exactly `X * Y` elements.
#[derive(Debug, Clone, PartialEq, Eq)]
pub struct Matrix<T> {
    dim_x: usize,
    dim_y: usize,
    data: Vec<T>,
}

impl<T> View for Matrix<T> {
    type V = Seq<Seq<T>>;

    closed spec fn view(&self) -> Seq<Seq<T>> {
        Seq::new(
            self.dim_x as nat,
            |i: int| Seq::new(self.dim_y as nat, |j: int| self.data[i * self.dim_y + j]),
        )
    }
}

impl<T> Matrix<T> {
    /// The shape is positive and the buffer holds exactly one element
    /// per cell.
    pub closed spec fn wf(&self) -> bool {
        &&& 1 <= self.dim_x
        &&& 1 <= self.dim_y
        &&& self.data.len() == self.dim_x * self.dim_y
    }

    /// Builds the `dim_x` by `dim_y` matrix whose row-major elements are
    /// `elements`, rejecting a zero dimension or a wrong element count
    /// with `ShapeMismatch` (and never truncating or padding).
    pub fn construct(dim_x: usize, dim_y: usize, elements: Vec<T>) -> (result: Result<
        Matrix<T>,
        ShapeMismatch,
    >)
        ensures
            match result {
                Ok(m) => {
                    &&& 1 <= dim_x
                    &&& 1 <= dim_y
                    &&& elements@.len() == dim_x * dim_y
                    &&& m.wf()
                    &&& shaped(m@)
                    &&& rows_of(m@) == dim_x
                    &&& cols_of(m@) == dim_y
                    &&& forall|i: int, j: int|
                        0 <= i < dim_x && 0 <= j < dim_y ==> m@[i][j] == elements@[i * dim_y + j]
                },
                Err(_) => !(1 <= dim_x && 1 <= dim_y && elements@.len() == dim_x * dim_y),
            },
    {
        if dim_x == 0 || dim_y == 0 {
            return Err(ShapeMismatch);
        }
        let supplied = elements.len();
        let expected = match dim_x.checked_mul(dim_y) {
            Some(n) => n,
            None => {
                return Err(ShapeMismatch);
            },
        };
        if supplied != expected {
            return Err(ShapeMismatch);
        }
        Ok(Matrix { dim_x, dim_y, data: elements })
    }

    /// The number of rows (the extent of the first index).
    pub fn len_x(&self) -> (n: usize)
        ensures
            n == rows_of(self@),
    {
        self.dim_x
    }

    /// The number of columns (the extent of the second index).
    pub fn len_y(&self) -> (n: usize)
        requires
            self.wf(),
        ensures
            n == cols_of(self@),
    {
        self.dim_y
    }
}

impl<T: Copy> Matrix<T> {
    /// The transpose: a `Y` by `X` matrix whose entry `[x][y]` is this
    /// matrix's entry `[y][x]`. A pure re-indexing; no arithmetic on the
    /// elements is involved.
    #[verifier::loop_isolation(false)]
    pub fn transpose(self) -> (r: Matrix<T>)
        requires
            self.wf(),
        ensures
            r.wf(),
            shaped(r@),
            rows_of(r@) == cols_of(self@),
            cols_of(r@) == rows_of(self@),
            r@ == transpose_spec(self@),
    {
        let x = self.dim_x;
        let y = self.dim_y;
        let mut data: Vec<T> = Vec::new();
        let mut i: usize = 0;
        while i < y
            invariant
                i <= y,
                data@.len() == i * x,
                forall|p: int, q: int|
                    0 <= p < i && 0 <= q < x ==> #[trigger] data@[fidx(p, q, x as int)]
                        == self.data@[fidx(q, p, y as int)],
            decreases y - i,
        {
            let mut j: usize = 0;
            while j < x
                invariant
                    i < y,
                    j <= x,
                    data@.len() == i * x + j,
                    forall|p: int, q: int|
                        0 <= p < i && 0 <= q < x ==> #[trigger] data@[fidx(p, q, x as int)]
                            == self.data@[fidx(q, p, y as int)],
                    forall|q: int|
                        0 <= q < j ==> #[trigger] data@[fidx(i as int, q, x as int)]
                            == self.data@[fidx(q, i as int, y as int)],
                decreases x - j,
            {
                proof {
                    lemma_grid_index(j as int, i as int, x as int, y as int);
                }
                let v = self.data[j * y + i];
                data.push(v);
                proof {
                    assert forall|p: int, q: int| 0 <= p < i && 0 <= q < x implies #[trigger] data@[fidx(
                        p,
                        q,
                        x as int,
                    )] == self.data@[fidx(q, p, y as int)] by {
                        lemma_grid_index(p, q, i as int, x as int);
                    }
                }
                j += 1;
            }
            proof {
                assert((i + 1) * x == i * x + x) by (nonlinear_arith);
            }
            i += 1;
        }
        let r = Matrix { dim_x: y, dim_y: x, data };
        proof {
            assert forall|a: int, b: int| 0 <= a < y && 0 <= b < x implies r@[a][b] == self@[b][a] by {
                lemma_grid_index(a, b, y as int, x as int);
                lemma_grid_index(b, a, x as int, y as int);
                assert(r@[a][b] == data@[fidx(a, b, x as int)]);
            }
            assert(r@ =~~= transpose_spec(self@));
        }
        r
    }

    /// The transpose under its shorthand name: where a caller would
    /// reach for a one-character prefix operator, this named method says
    /// what the operator would have meant.
    pub fn transposed(self) -> (r: Matrix<T>)
        requires
            self.wf(),
        ensures
            r.wf(),
            shaped(r@),
            rows_of(r@) == cols_of(self@),
            cols_of(r@) == rows_of(self@),
            r@ == transpose_spec(self@),
    {
        self.transpose()
    }

    /// Reversal of the first axis: row `x` of the result is row
    /// `X - 1 - x` of this matrix. The shape is unchanged.
    #[verifier::loop_isolation(false)]
    pub fn flip_x(self) -> (r: Matrix<T>)
        requires
            self.wf(),
        ensures
            r.wf(),
            shaped(r@),
            rows_of(r@) == rows_of(self@),
            cols_of(r@) == cols_of(self@),
            r@ == flip_x_spec(self@),
    {
        let x = self.dim_x;
        let y = self.dim_y;
        let mut data: Vec<T> = Vec::new();
        let mut i: usize = 0;
        while i < x
            invariant
                i <= x,
                data@.len() == i * y,
                forall|p: int, q: int|
                    0 <= p < i && 0 <= q < y ==> #[trigger] data@[fidx(p, q, y as int)]
                        == self.data@[fidx(x - 1 - p, q, y as int)],
            decreases x - i,
        {
            let mut j: usize = 0;
            while j < y
                invariant
                    i < x,
                    j <= y,
                    data@.len() == i * y + j,
                    forall|p: int, q: int|
                        0 <= p < i && 0 <= q < y ==> #[trigger] data@[fidx(p, q, y as int)]
                            == self.data@[fidx(x - 1 - p, q, y as int)],
                    forall|q: int|
                        0 <= q < j ==> #[trigger] data@[fidx(i as int, q, y as int)]
                            == self.data@[fidx(x - 1 - i, q, y as int)],
                decreases y - j,
            {
                proof {
                    lemma_grid_index(x - 1 - i, j as int, x as int, y as int);
                }
                let v = self.data[(x - 1 - i) * y + j];
                data.push(v);
                proof {
                    assert forall|p: int, q: int| 0 <= p < i && 0 <= q < y implies #[trigger] data@[fidx(
                        p,
                        q,
                        y as int,
                    )] == self.data@[fidx(x - 1 - p, q, y as int)] by {
                        lemma_grid_index(p, q, i as int, y as int);
                    }
                }
                j += 1;
            }
            proof {
                assert((i + 1) * y == i * y + y) by (nonlinear_arith);
            }
            i += 1;
        }
        let r = Matrix { dim_x: x, dim_y: y, data };
        proof {
            assert forall|a: int, b: int| 0 <= a < x && 0 <= b < y implies r@[a][b] == self@[x - 1
                - a][b] by {
                lemma_grid_index(a, b, x as int, y as int);
                lemma_grid_index(x - 1 - a, b, x as int, y as int);
                assert(r@[a][b] == data@[fidx(a, b, y as int)]);
            }
            assert(r@ =~~= flip_x_spec(self@));
        }
        r
    }

    /// The element at row `i`, column `j`.
    pub fn get(&self, i: usize, j: usize) -> (v: T)
        requires
            self.wf(),
            i < rows_of(self@),
            j < cols_of(self@),
        ensures
            v == self@[i as int][j as int],
    {
        proof {
            lemma_grid_index(i as int, j as int, self.dim_x as int, self.dim_y as int);
        }
        self.data[i * self.dim_y + j]
    }
}

impl Matrix<i64> {
    /// Element-wise addition: entry `[x][y]` of the result is the sum of
    /// the two operands' entries `[x][y]`. The operands share one shape,
    /// and each element-wise sum stays in range of the element type.
    #[verifier::loop_isolation(false)]
    pub fn add(self, rhs: Matrix<i64>) -> (r: Matrix<i64>)
        requires
            self.wf(),
            rhs.wf(),
            rows_of(self@) == rows_of(rhs@),
            cols_of(self@) == cols_of(rhs@),
            forall|i: int, j: int|
                0 <= i < rows_of(self@) && 0 <= j < cols_of(self@) ==> in_i64(
                    #[trigger] self@[i][j] + #[trigger] rhs@[i][j],
                ),
        ensures
            r.wf(),
            shaped(r@),
            rows_of(r@) == rows_of(self@),
            cols_of(r@) == cols_of(self@),
            int_rows(r@) == add_mat(int_rows(self@), int_rows(rhs@)),
    {
        let x = self.dim_x;
        let y = self.dim_y;
        let n = self.data.len();
        let mut data: Vec<i64> = Vec::new();
        let mut k: usize = 0;
        while k < n
            invariant
                k <= n,
                data@.len() == k,
                forall|t: int| 0 <= t < k ==> #[trigger] data@[t] == self.data@[t] + rhs.data@[t],
            decreases n - k,
        {
            proof {
                lemma_flat_index(k as int, x as int, y as int);
                let i = k as int / y as int;
                let j = k as int % y as int;
                assert(self@[i][j] == self.data@[k as int]);
                assert(rhs@[i][j] == rhs.data@[k as int]);
                assert(in_i64(self.data@[k as int] + rhs.data@[k as int]));
            }
            let v = self.data[k] + rhs.data[k];
            data.push(v);
            k += 1;
        }
        let r = Matrix { dim_x: x, dim_y: y, data };
        proof {
            assert forall|i: int, j: int| 0 <= i < x && 0 <= j < y implies int_rows(r@)[i][j]
                == int_rows(self@)[i][j] + int_rows(rhs@)[i][j] by {
                lemma_grid_index(i, j, x as int, y as int);
                assert(r@[i][j] == data@[fidx(i, j, y as int)]);
                assert(self@[i][j] == self.data@[fidx(i, j, y as int)]);
                assert(rhs@[i][j] == rhs.data@[fidx(i, j, y as int)]);
            }
            assert(int_rows(r@) =~~= add_mat(int_rows(self@), int_rows(rhs@)));
        }
        r
    }

    /// Matrix product: for an `X` by `Y` and a `Y` by `Z` operand the
    /// result is `X` by `Z`, and entry `[x][z]` is the dot product of
    /// row `x` of this matrix with column `z` of `rhs`, accumulated from
    /// zero in ascending inner index order. The inner dimensions match,
    /// and every running accumulation stays in range of the element
    /// type.
    #[verifier::loop_isolation(false)]
    pub fn multiply(self, rhs: Matrix<i64>) -> (r: Matrix<i64>)
        requires
            self.wf(),
            rhs.wf(),
            cols_of(self@) == rows_of(rhs@),
            mul_fits(int_rows(self@), int_rows(rhs@)),
        ensures
            r.wf(),
            shaped(r@),
            rows_of(r@) == rows_of(self@),
            cols_of(r@) == cols_of(rhs@),
            int_rows(r@) == mul_mat(int_rows(self@), int_rows(rhs@)),
    {
        let xd = self.dim_x;
        let yd = self.dim_y;
        let zd = rhs.dim_y;
        proof {
            assert(rhs.dim_x == yd);
        }
        let ghost ai = int_rows(self@);
        let ghost bi = int_rows(rhs@);
        let mut data: Vec<i64> = Vec::new();
        let mut i: usize = 0;
        while i < xd
            invariant
                i <= xd,
                data@.len() == i * zd,
                forall|p: int, q: int|
                    0 <= p < i && 0 <= q < zd ==> #[trigger] data@[fidx(p, q, zd as int)] == dot(
                        ai[p],
                        col_at(bi, q),
                    ),
            decreases xd - i,
        {
            let mut z: usize = 0;
            while z < zd
                invariant
                    i < xd,
                    z <= zd,
                    data@.len() == i * zd + z,
                    forall|p: int, q: int|
                        0 <= p < i && 0 <= q < zd ==> #[trigger] data@[fidx(p, q, zd as int)]
                            == dot(ai[p], col_at(bi, q)),
                    forall|q: int|
                        0 <= q < z ==> #[trigger] data@[fidx(i as int, q, zd as int)] == dot(
                            ai[i as int],
                            col_at(bi, q),
                        ),
                decreases zd - z,
            {
                let ghost s = prod_seq(ai[i as int], col_at(bi, z as int));
                proof {
                    assert(s.len() == yd);
                }
                let mut acc: i64 = 0;
                let mut y: usize = 0;
                while y < yd
                    invariant
                        y <= yd,
                        acc as int == sum_prefix(s, y as int),
                    decreases yd - y,
                {
                    proof {
                        lemma_grid_index(i as int, y as int, xd as int, yd as int);
                        lemma_grid_index(y as int, z as int, yd as int, zd as int);
                    }
                    let av = self.data[i * yd + y];
                    let bv = rhs.data[y * zd + z];
                    proof {
                        assert(ai[i as int][y as int] == av as int);
                        assert(bi[y as int][z as int] == bv as int);
                        assert(s[y as int] == (av as int) * (bv as int));
                        let avi = av as int;
                        let bvi = bv as int;
                        assert(-0x40000000000000000000000000000000 <= avi * bvi
                            <= 0x40000000000000000000000000000000) by (nonlinear_arith)
                            requires
                                -0x8000000000000000 <= avi <= 0x7fffffffffffffff,
                                -0x8000000000000000 <= bvi <= 0x7fffffffffffffff,
                        ;
                        assert(in_i64(sum_prefix(prod_seq(ai[i as int], col_at(bi, z as int)), y as int + 1)));
                    }
                    let p: i128 = (av as i128) * (bv as i128);
                    let t: i128 = (acc as i128) + p;
                    acc = t as i64;
                    y += 1;
                }
                proof {
                    assert(acc as int == dot(ai[i as int], col_at(bi, z as int)));
                }
                data.push(acc);
                proof {
                    assert forall|p: int, q: int| 0 <= p < i && 0 <= q < zd implies #[trigger] data@[fidx(
                        p,
                        q,
                        zd as int,
                    )] == dot(ai[p], col_at(bi, q)) by {
                        lemma_grid_index(p, q, i as int, zd as int);
                    }
                }
                z += 1;
            }
            proof {
                assert((i + 1) * zd == i * zd + zd) by (nonlinear_arith);
            }
            i += 1;
        }
        let r = Matrix { dim_x: xd, dim_y: zd, data };
        proof {
            assert forall|a: int, b: int| 0 <= a < xd && 0 <= b < zd implies int_rows(r@)[a][b]
                == mul_mat(ai, bi)[a][b] by {
                lemma_grid_index(a, b, xd as int, zd as int);
                assert(r@[a][b] == data@[fidx(a, b, zd as int)]);
            }
            assert(int_rows(r@) =~~= mul_mat(ai, bi));
        }
        r
    }

    /// The `n` by `n` identity matrix: 1 on the diagonal, 0 elsewhere.
    #[verifier::loop_isolation(false)]
    pub fn identity(n: usize) -> (r: Matrix<i64>)
        requires
            1 <= n,
            n * n <= usize::MAX,
        ensures
            r.wf(),
            shaped(r@),
            rows_of(r@) == n,
            cols_of(r@) == n,
            int_rows(r@) == id_mat(n as nat),
    {
        let mut data: Vec<i64> = Vec::new();
        let mut i: usize = 0;
        while i < n
            invariant
                i <= n,
                data@.len() == i * n,
                forall|p: int, q: int|
                    0 <= p < i && 0 <= q < n ==> #[trigger] data@[fidx(p, q, n as int)] == (
                    if p == q {
                        1int
                    } else {
                        0int
                    }),
            decreases n - i,
        {
            let mut j: usize = 0;
            while j < n
                invariant
                    i < n,
                    j <= n,
                    data@.len() == i * n + j,
                    forall|p: int, q: int|
                        0 <= p < i && 0 <= q < n ==> #[trigger] data@[fidx(p, q, n as int)] == (
                        if p == q {
                            1int
                        } else {
                            0int
                        }),
                    forall|q: int|
                        0 <= q < j ==> #[trigger] data@[fidx(i as int, q, n as int)] == (
                        if i as int == q {
                            1int
                        } else {
                            0int
                        }),
                decreases n - j,
            {
                let v: i64 = if i == j {
                    1
                } else {
                    0
                };
                data.push(v);
                proof {
                    assert forall|p: int, q: int| 0 <= p < i && 0 <= q < n implies #[trigger] data@[fidx(
                        p,
                        q,
                        n as int,
                    )] == (if p == q {
                        1int
                    } else {
                        0int
                    }) by {
                        lemma_grid_index(p, q, i as int, n as int);
                    }
                }
                j += 1;
            }
            proof {
                assert((i + 1) * n == i * n + n) by (nonlinear_arith);
            }
            i += 1;
        }
        let r = Matrix { dim_x: n, dim_y: n, data };
        proof {
            assert forall|a: int, b: int| 0 <= a < n && 0 <= b < n implies int_rows(r@)[a][b]
                == id_mat(n as nat)[a][b] by {
                lemma_grid_index(a, b, n as int, n as int);
                assert(r@[a][b] == data@[fidx(a, b, n as int)]);
            }
            assert(int_rows(r@) =~~= id_mat(n as nat));
        }
        r
    }
}

/// Whether a mathematical integer fits in the element type `i64`.
pub open spec fn in_i64(v: int) -> bool {
    i64::MIN <= v <= i64::MAX
}

/// A matrix model with its elements read as mathematical integers.
pub open spec fn int_rows(m: Seq<Seq<i64>>) -> Seq<Seq<int>> {
    Seq::new(m.len(), |i: int| Seq::new(m[i].len(), |j: int| m[i][j] as int))
}

/// Element-wise sum of two matrix models of the same shape.
pub open spec fn add_mat(a: Seq<Seq<int>>, b: Seq<Seq<int>>) -> Seq<Seq<int>> {
    Seq::new(a.len(), |i: int| Seq::new(a[i].len(), |j: int| a[i][j] + b[i][j]))
}

/// Matrix product: entry `[x][z]` is the dot product of row `x` of `a`
/// with column `z` of `b`, accumulated from zero in ascending inner
/// index order.
pub open spec fn mul_mat(a: Seq<Seq<int>>, b: Seq<Seq<int>>) -> Seq<Seq<int>> {
    Seq::new(a.len(), |x: int| Seq::new(cols_of(b), |z: int| dot(a[x], col_at(b, z))))
}

/// The dot product of two equally long integer sequences.
pub open spec fn dot(a: Seq<int>, b: Seq<int>) -> int {
    sum_all(prod_seq(a, b))
}

/// The pointwise products `a[i] * b[i]`.
pub open spec fn prod_seq(a: Seq<int>, b: Seq<int>) -> Seq<int> {
    Seq::new(a.len(), |i: int| a[i] * b[i])
}

/// The `n` by `n` identity model: 1 on the diagonal, 0 elsewhere.
pub open spec fn id_mat(n: nat) -> Seq<Seq<int>> {
    Seq::new(n, |i: int| Seq::new(n, |j: int| if i == j { 1int } else { 0int }))
}

/// Every running prefix of every dot product of the multiplication
/// `a * b` stays inside the element type's range, so the ascending
/// accumulation of the product can be carried out on `i64` values.
pub open spec fn mul_fits(a: Seq<Seq<int>>, b: Seq<Seq<int>>) -> bool {
    forall|x: int, z: int, k: int|
        0 <= x < a.len() && 0 <= z < cols_of(b) && 0 <= k <= b.len() ==> in_i64(
            #[trigger] sum_prefix(prod_seq(a[x], col_at(b, z)), k),
        )
}

/// The row-major buffer position of cell `(p, q)` in a grid with `c`
/// columns.
pub(crate) open spec fn fidx(p: int, q: int, c: int) -> int {
    p * c + q
}

/// A rose tree: a value with any number of child trees. A plain
/// container with no construction protocol of its own, usable for
/// example to report nested results derived from matrices.
pub struct Tree<T> {
    pub value: T,
    pub children: Vec<Tree<T>>,
}

/// Builds a small sample tree by hand: a root 1 with children 2 and 5,
/// where 2 in turn has the leaves 3 and 4.
pub fn test_tree() -> (t: Tree<i32>)
    ensures
        t.value == 1,
        t.children@.len() == 2,
        t.children@[0].value == 2,
        t.children@[0].children@.len() == 2,
        t.children@[0].children@[0].value == 3,
        t.children@[0].children@[0].children@.len() == 0,
        t.children@[0].children@[1].value == 4,
        t.children@[0].children@[1].children@.len() == 0,
        t.children@[1].value == 5,
        t.children@[1].children@.len() == 0,
{
    let leaf3 = Tree { value: 3, children: Vec::new() };
    let leaf4 = Tree { value: 4, children: Vec::new() };
    let node2 = Tree { value: 2, children: vec![leaf3, leaf4] };
    let leaf5 = Tree { value: 5, children: Vec::new() };
    Tree { value: 1, children: vec![node2, leaf5] }
}

/// A row-major cell index stays inside the buffer of an `r` by `c` grid.
pub(crate) proof fn lemma_grid_index(p: int, q: int, r: int, c: int)
    by (nonlinear_arith)
    requires
        0 <= p < r,
        0 <= q < c,
    ensures
        0 <= p * c + q,
        p * c + q < r * c,
{
}

/// A buffer position of an `r` by `c` grid names exactly one cell:
/// row `k / c`, column `k % c`.
pub(crate) proof fn lemma_flat_index(k: int, r: int, c: int)
    requires
        0 <= k,
        1 <= c,
        k < r * c,
    ensures
        0 <= k / c < r,
        0 <= k % c < c,
        k == fidx(k / c, k % c, c),
{
    let d = k / c;
    let m0 = k % c;
    vstd::arithmetic::div_mod::lemma_fundamental_div_mod(k, c);
    vstd::arithmetic::div_mod::lemma_mod_bound(k, c);
    vstd::arithmetic::div_mod::lemma_div_pos_is_pos(k, c);
    assert(d < r && k == d * c + m0) by (nonlinear_arith)
        requires
            0 <= k,
            1 <= c,
            k < r * c,
            k == c * d + m0,
            0 <= m0 < c,
            0 <= d,
    ;
}

} // verus!
