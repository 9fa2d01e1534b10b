//! Fixed-point matrices and the tensor operations the transformer needs.
//!
//! A `Matrix` stores Q16.16 entries row-major. Well-formedness bounds every
//! entry by `MAX_MAG`; every operation clamps back into that range, which is
//! the engine's numeric-safety policy: activations can never leave a bounded
//! interval, so no stage can produce an overflow, and the non-finite values
//! a floating-point pipeline would have to reject cannot arise at all.

use vstd::prelude::*;

use crate::fixed::{spec_clamp, tdiv, FP, MAX_MAG};

verus! {

/// Largest matrix dimension the engine accepts.
pub const MAX_DIM: usize = 32768;

/// A fixed-point matrix, row-major.
pub struct Matrix {
    pub data: Vec<i64>,
    pub rows: usize,
    pub cols: usize,
}

/// The mathematical value of a matrix: its entries, row-major, with its
/// shape. The whole forward pass is specified as a function on these.
pub ghost struct GMat {
    pub data: Seq<i64>,
    pub rows: int,
    pub cols: int,
}

impl GMat {
    /// The entry in row `i`, column `j`.
    pub open spec fn at(self, i: int, j: int) -> int {
        self.data[i * self.cols + j] as int
    }

    /// Consistent shape, bounded dimensions, bounded entries.
    pub open spec fn wf(self) -> bool {
        &&& 0 <= self.rows <= MAX_DIM
        &&& 0 <= self.cols <= MAX_DIM
        &&& self.data.len() == self.rows * self.cols
        &&& forall|k: int|
            0 <= k < self.data.len() ==> -MAX_MAG <= #[trigger] self.data[k] <= MAX_MAG
    }

    /// Row `i` as a sequence.
    pub open spec fn row(self, i: int) -> Seq<i64> {
        self.data.subrange(i * self.cols, i * self.cols + self.cols)
    }
}

/// A matrix whose entry `(i, j)` is `f(i, j)`, laid out row-major.
pub open spec fn flat(rows: int, cols: int, f: spec_fn(int, int) -> i64) -> GMat {
    GMat {
        rows,
        cols,
        data: Seq::new((rows * cols) as nat, |t: int| f(t / cols, t % cols)),
    }
}

/// A concrete matrix whose shape matches and whose entries agree with `f`
/// everywhere has exactly the value `flat(rows, cols, f)`.
pub proof fn lemma_is_flat(m: Matrix, f: spec_fn(int, int) -> i64)
    requires
        m.data.len() == m.rows * m.cols,
        forall|i: int, j: int|
            0 <= i < m.rows && 0 <= j < m.cols ==> #[trigger] m.gm().at(i, j) == f(i, j),
    ensures
        m.gm() == flat(m.rows as int, m.cols as int, f),
{
    let g = flat(m.rows as int, m.cols as int, f);
    assert(m.gm().data =~= g.data) by {
        assert forall|t: int| 0 <= t < m.data.len() implies m.data@[t] == g.data[t] by {
            let cols = m.cols as int;
            assert(cols > 0) by (nonlinear_arith)
                requires
                    0 <= t,
                    t < m.rows as int * cols,
                    0 <= cols,
            ;
            let i = t / cols;
            let j = t % cols;
            vstd::arithmetic::div_mod::lemma_fundamental_div_mod(t, cols);
            vstd::arithmetic::div_mod::lemma_mod_bound(t, cols);
            vstd::arithmetic::div_mod::lemma_div_pos_is_pos(t, cols);
            assert(i < m.rows) by (nonlinear_arith)
                requires
                    t == cols * i + j,
                    0 <= j < cols,
                    0 <= i,
                    t < m.rows * cols,
            ;
            assert(t == i * cols + j);
            assert(g.data[t] == f(i, j));
            assert(m.gm().at(i, j) == f(i, j));
            assert(m.data@[t] == f(i, j));
        };
    };
}

/// Multiplying values bounded by `A` and `B` stays within `A * B`.
pub proof fn lemma_abs_mul(a: int, b: int, cap_a: int, cap_b: int)
    requires
        -cap_a <= a <= cap_a,
        -cap_b <= b <= cap_b,
        0 <= cap_a,
        0 <= cap_b,
    ensures
        -(cap_a * cap_b) <= a * b <= cap_a * cap_b,
{
    assert(-(cap_a * cap_b) <= a * b <= cap_a * cap_b) by (nonlinear_arith)
        requires
            -cap_a <= a <= cap_a,
            -cap_b <= b <= cap_b,
            0 <= cap_a,
            0 <= cap_b,
    ;
}

/// A row-major index stays inside the matrix body.
pub proof fn lemma_rm_index(rows: int, cols: int, i: int, j: int)
    requires
        0 <= i < rows,
        0 <= j < cols,
    ensures
        0 <= i * cols + j < rows * cols,
        i * cols + j < (i + 1) * cols,
{
    assert(0 <= i * cols + j < rows * cols && i * cols + j < (i + 1) * cols) by (nonlinear_arith)
        requires
            0 <= i < rows,
            0 <= j < cols,
    ;
}

/// A whole row stays inside the matrix body.
pub proof fn lemma_row_range(rows: int, cols: int, i: int)
    requires
        0 <= i < rows,
        0 <= cols,
    ensures
        0 <= i * cols,
        i * cols + cols <= rows * cols,
{
    assert(0 <= i * cols && i * cols + cols <= rows * cols) by (nonlinear_arith)
        requires
            0 <= i < rows,
            0 <= cols,
    ;
}

impl Matrix {
    /// The mathematical value of this matrix.
    pub open spec fn gm(self) -> GMat {
        GMat { data: self.data@, rows: self.rows as int, cols: self.cols as int }
    }

    /// Well-formed: consistent shape, bounded dimensions, every entry within
    /// the clamp interval.
    pub open spec fn wf(self) -> bool {
        &&& self.data.len() == self.rows * self.cols
        &&& self.gm().wf()
    }

    /// The entry in row `i`, column `j`.
    pub open spec fn at(self, i: int, j: int) -> int {
        self.gm().at(i, j)
    }

    /// Row `i` as a sequence.
    pub open spec fn spec_row(self, i: int) -> Seq<i64> {
        self.gm().row(i)
    }

    /// Every entry of a well-formed matrix is within the clamp interval.
    pub proof fn lemma_at_bounded(self, i: int, j: int)
        requires
            self.wf(),
            0 <= i < self.rows,
            0 <= j < self.cols,
        ensures
            -MAX_MAG <= self.at(i, j) <= MAX_MAG,
    {
        lemma_rm_index(self.rows as int, self.cols as int, i, j);
    }

    /// The all-zero matrix: the synthetic fallback for a missing weight.
    pub fn zeros(rows: usize, cols: usize) -> (r: Matrix)
        requires
            rows <= MAX_DIM,
            cols <= MAX_DIM,
        ensures
            r.wf(),
            r.rows == rows,
            r.cols == cols,
            forall|i: int, j: int| 0 <= i < rows && 0 <= j < cols ==> r.at(i, j) == 0,
    {
        proof {
            assert(rows * cols <= MAX_DIM * MAX_DIM) by (nonlinear_arith)
                requires
                    rows <= MAX_DIM,
                    cols <= MAX_DIM,
            ;
        }
        let n = rows * cols;
        let mut data: Vec<i64> = Vec::new();
        let mut k: usize = 0;
        while k < n
            invariant
                k <= n,
                data.len() == k,
                forall|t: int| 0 <= t < k ==> #[trigger] data@[t] == 0,
            decreases n - k,
        {
            data.push(0);
            k = k + 1;
        }
        let r = Matrix { data, rows, cols };
        proof {
            assert forall|i: int, j: int| 0 <= i < rows && 0 <= j < cols implies r.at(i, j)
                == 0 by {
                lemma_rm_index(rows as int, cols as int, i, j);
            };
        }
        r
    }

    /// Extract row `i` as a vector.
    pub fn row(&self, i: usize) -> (r: Vec<i64>)
        requires
            self.wf(),
            i < self.rows,
        ensures
            r@ == self.spec_row(i as int),
            r.len() == self.cols,
            forall|j: int| 0 <= j < self.cols ==> #[trigger] r@[j] == self.at(i as int, j),
    {
        let mut r: Vec<i64> = Vec::new();
        let mut j: usize = 0;
        proof {
            lemma_row_range(self.rows as int, self.cols as int, i as int);
        }
        while j < self.cols
            invariant
                j <= self.cols,
                self.wf(),
                i < self.rows,
                r.len() == j,
                forall|t: int| 0 <= t < j ==> #[trigger] r@[t] == self.at(i as int, t),
            decreases self.cols - j,
        {
            proof {
                lemma_rm_index(self.rows as int, self.cols as int, i as int, j as int);
            }
            r.push(self.data[i * self.cols + j]);
            j = j + 1;
        }
        proof {
            assert(r@ =~= self.spec_row(i as int)) by {
                lemma_row_range(self.rows as int, self.cols as int, i as int);
                assert forall|t: int| 0 <= t < self.cols implies self.spec_row(i as int)[t]
                    == self.data@[i as int * self.cols + t] by {
                    lemma_rm_index(self.rows as int, self.cols as int, i as int, t);
                };
            };
        }
        r
    }
}

/// The dot product of row `i` of `a` with column `j` of `b`, over the first
/// `k` positions, in raw (Q32.32) units.
pub open spec fn dot(a: GMat, b: GMat, i: int, j: int, k: nat) -> int
    decreases k,
{
    if k == 0 {
        0
    } else {
        dot(a, b, i, j, (k - 1) as nat) + a.at(i, k - 1) * b.at(k - 1, j)
    }
}

/// The matmul entry: the dot product rescaled to Q16.16 and clamped.
pub open spec fn spec_matmul_at(a: GMat, b: GMat, i: int, j: int) -> int {
    spec_clamp(tdiv(dot(a, b, i, j, a.cols as nat), FP as int), -MAX_MAG as int, MAX_MAG as int)
}

/// The matrix product at the ghost level.
pub open spec fn s_matmul(a: GMat, b: GMat) -> GMat {
    flat(a.rows, b.cols, |i: int, j: int| spec_matmul_at(a, b, i, j) as i64)
}

/// An entry of a well-formed ghost matrix is within the clamp interval.
pub proof fn lemma_gat_bounded(g: GMat, i: int, j: int)
    requires
        g.wf(),
        0 <= i < g.rows,
        0 <= j < g.cols,
    ensures
        -MAX_MAG <= g.at(i, j) <= MAX_MAG,
{
    lemma_rm_index(g.rows, g.cols, i, j);
}

/// A partial dot product over `k` of `n` positions is bounded by
/// `k * MAX_MAG^2`.
proof fn lemma_dot_bound(a: GMat, b: GMat, i: int, j: int, k: nat)
    requires
        a.wf(),
        b.wf(),
        a.cols == b.rows,
        0 <= i < a.rows,
        0 <= j < b.cols,
        k <= a.cols,
    ensures
        -(k * MAX_MAG * MAX_MAG) <= dot(a, b, i, j, k) <= k * MAX_MAG * MAX_MAG,
    decreases k,
{
    if k > 0 {
        lemma_dot_bound(a, b, i, j, (k - 1) as nat);
        lemma_gat_bounded(a, i, k - 1);
        lemma_gat_bounded(b, k - 1, j);
        lemma_abs_mul(a.at(i, k - 1), b.at(k - 1, j), MAX_MAG as int, MAX_MAG as int);
        assert((k - 1) * MAX_MAG * MAX_MAG + MAX_MAG * MAX_MAG == k * MAX_MAG * MAX_MAG)
            by (nonlinear_arith);
    }
}

/// Matrix product with rescaling to Q16.16 and clamping, entry-exact.
pub fn matmul(a: &Matrix, b: &Matrix) -> (r: Matrix)
    requires
        a.wf(),
        b.wf(),
        a.cols == b.rows,
    ensures
        r.wf(),
        r.rows == a.rows,
        r.cols == b.cols,
        forall|i: int, j: int|
            0 <= i < a.rows && 0 <= j < b.cols ==> #[trigger] r.at(i, j) == spec_matmul_at(
                a.gm(),
                b.gm(),
                i,
                j,
            ),
        r.gm() == s_matmul(a.gm(), b.gm()),
{
    let mut data: Vec<i64> = Vec::new();
    let mut i: usize = 0;
    while i < a.rows
        invariant
            i <= a.rows,
            a.wf(),
            b.wf(),
            a.cols == b.rows,
            data.len() == i * b.cols,
            forall|t: int| 0 <= t < data.len() ==> -MAX_MAG <= #[trigger] data@[t] <= MAX_MAG,
            forall|i0: int, j0: int|
                0 <= i0 < i && 0 <= j0 < b.cols ==> #[trigger] data@[i0 * b.cols + j0]
                    == spec_matmul_at(a.gm(), b.gm(), i0, j0),
        decreases a.rows - i,
    {
        let mut j: usize = 0;
        while j < b.cols
            invariant
                i < a.rows,
                j <= b.cols,
                a.wf(),
                b.wf(),
                a.cols == b.rows,
                data.len() == i * b.cols + j,
                forall|t: int| 0 <= t < data.len() ==> -MAX_MAG <= #[trigger] data@[t] <= MAX_MAG,
                forall|i0: int, j0: int|
                    0 <= i0 < i && 0 <= j0 < b.cols ==> #[trigger] data@[i0 * b.cols + j0]
                        == spec_matmul_at(a.gm(), b.gm(), i0, j0),
                forall|j0: int|
                    0 <= j0 < j ==> #[trigger] data@[i as int * b.cols + j0] == spec_matmul_at(
                        a.gm(),
                        b.gm(),
                        i as int,
                        j0,
                    ),
            decreases b.cols - j,
        {
            let mut acc: i128 = 0;
            let mut k: usize = 0;
            while k < a.cols
                invariant
                    i < a.rows,
                    j < b.cols,
                    k <= a.cols,
                    a.wf(),
                    b.wf(),
                    a.cols == b.rows,
                    acc == dot(a.gm(), b.gm(), i as int, j as int, k as nat),
                    -(k * MAX_MAG * MAX_MAG) <= acc <= k * MAX_MAG * MAX_MAG,
                decreases a.cols - k,
            {
                proof {
                    lemma_rm_index(a.rows as int, a.cols as int, i as int, k as int);
                    lemma_rm_index(b.rows as int, b.cols as int, k as int, j as int);
                    a.lemma_at_bounded(i as int, k as int);
                    b.lemma_at_bounded(k as int, j as int);
                    lemma_abs_mul(
                        a.at(i as int, k as int),
                        b.at(k as int, j as int),
                        MAX_MAG as int,
                        MAX_MAG as int,
                    );
                    assert(k * MAX_MAG * MAX_MAG + MAX_MAG * MAX_MAG == (k + 1) * MAX_MAG
                        * MAX_MAG) by (nonlinear_arith);
                    assert((k + 1) * MAX_MAG * MAX_MAG <= MAX_DIM * MAX_MAG * MAX_MAG)
                        by (nonlinear_arith)
                        requires
                            k + 1 <= MAX_DIM,
                    ;
                }
                let av: i64 = a.data[i * a.cols + k];
                let bv: i64 = b.data[k * b.cols + j];
                acc = acc + (av as i128) * (bv as i128);
                k = k + 1;
            }
            proof {
                lemma_dot_bound(a.gm(), b.gm(), i as int, j as int, a.cols as nat);
                assert(a.cols * MAX_MAG * MAX_MAG <= MAX_DIM * MAX_MAG * MAX_MAG)
                    by (nonlinear_arith)
                    requires
                        a.cols <= MAX_DIM,
                ;
            }
            let q: i128 = acc / (FP as i128);
            let v: i64 = if q < -(MAX_MAG as i128) {
                -MAX_MAG
            } else if q > MAX_MAG as i128 {
                MAX_MAG
            } else {
                q as i64
            };
            assert(v == spec_matmul_at(a.gm(), b.gm(), i as int, j as int));
            data.push(v);
            proof {
                lemma_rm_index(a.rows as int, b.cols as int, i as int, j as int);
                assert forall|i0: int, j0: int| 0 <= i0 < i && 0 <= j0 < b.cols implies #[trigger]
                    data@[i0 * b.cols + j0] == spec_matmul_at(a.gm(), b.gm(), i0, j0) by {
                    lemma_rm_index(i as int, b.cols as int, i0, j0);
                };
            }
            j = j + 1;
        }
        i = i + 1;
        proof {
            assert((i - 1) * b.cols + b.cols == i * b.cols) by (nonlinear_arith);
        }
    }
    let r = Matrix { data, rows: a.rows, cols: b.cols };
    proof {
        assert(r.rows * r.cols == r.data.len()) by (nonlinear_arith)
            requires
                r.data.len() == r.rows * r.cols,
        ;
        assert forall|i0: int, j0: int| 0 <= i0 < a.rows && 0 <= j0 < b.cols implies #[trigger] r.at(
            i0,
            j0,
        ) == spec_matmul_at(a.gm(), b.gm(), i0, j0) by {
            lemma_rm_index(a.rows as int, b.cols as int, i0, j0);
        };
        lemma_is_flat(r, |i0: int, j0: int| spec_matmul_at(a.gm(), b.gm(), i0, j0) as i64);
    }
    r
}

/// Element-wise clamped sum: the residual connection.
pub fn add_clamped(a: &Matrix, b: &Matrix) -> (r: Matrix)
    requires
        a.wf(),
        b.wf(),
        a.rows == b.rows,
        a.cols == b.cols,
    ensures
        r.wf(),
        r.rows == a.rows,
        r.cols == a.cols,
        forall|k: int| 0 <= k < a.data.len() ==> #[trigger] r.data@[k] == spec_clamp(
            a.data@[k] + b.data@[k],
            -MAX_MAG as int,
            MAX_MAG as int,
        ),
{
    let n = a.data.len();
    let mut data: Vec<i64> = Vec::new();
    let mut k: usize = 0;
    while k < n
        invariant
            k <= n,
            a.wf(),
            b.wf(),
            a.rows == b.rows,
            a.cols == b.cols,
            n == a.data.len(),
            data.len() == k,
            forall|t: int| 0 <= t < k ==> #[trigger] data@[t] == spec_clamp(
                a.data@[t] + b.data@[t],
                -MAX_MAG as int,
                MAX_MAG as int,
            ),
            forall|t: int| 0 <= t < k ==> -MAX_MAG <= #[trigger] data@[t] <= MAX_MAG,
        decreases n - k,
    {
        let s: i64 = a.data[k] + b.data[k];
        let v = crate::fixed::clamp_i64(s, -MAX_MAG, MAX_MAG);
        data.push(v);
        k = k + 1;
    }
    Matrix { data, rows: a.rows, cols: a.cols }
}

/// The column slice at the ghost level.
pub open spec fn s_slice(m: GMat, c0: int, width: int) -> GMat {
    flat(m.rows, width, |i: int, j: int| m.at(i, c0 + j) as i64)
}

/// Columns `[c0, c0 + width)` of `m`: one attention head's slice.
pub fn slice_cols(m: &Matrix, c0: usize, width: usize) -> (r: Matrix)
    requires
        m.wf(),
        c0 + width <= m.cols,
    ensures
        r.wf(),
        r.rows == m.rows,
        r.cols == width,
        forall|i: int, j: int|
            0 <= i < m.rows && 0 <= j < width ==> #[trigger] r.at(i, j) == m.at(i, c0 + j),
        r.gm() == s_slice(m.gm(), c0 as int, width as int),
{
    let mut data: Vec<i64> = Vec::new();
    let mut i: usize = 0;
    while i < m.rows
        invariant
            i <= m.rows,
            m.wf(),
            c0 + width <= m.cols,
            data.len() == i * width,
            forall|t: int| 0 <= t < data.len() ==> -MAX_MAG <= #[trigger] data@[t] <= MAX_MAG,
            forall|i0: int, j0: int|
                0 <= i0 < i && 0 <= j0 < width ==> #[trigger] data@[i0 * width + j0] == m.at(
                    i0,
                    c0 + j0,
                ),
        decreases m.rows - i,
    {
        let mut j: usize = 0;
        while j < width
            invariant
                i < m.rows,
                j <= width,
                m.wf(),
                c0 + width <= m.cols,
                data.len() == i * width + j,
                forall|t: int| 0 <= t < data.len() ==> -MAX_MAG <= #[trigger] data@[t] <= MAX_MAG,
                forall|i0: int, j0: int|
                    0 <= i0 < i && 0 <= j0 < width ==> #[trigger] data@[i0 * width + j0] == m.at(
                        i0,
                        c0 + j0,
                    ),
                forall|j0: int|
                    0 <= j0 < j ==> #[trigger] data@[i as int * width + j0] == m.at(
                        i as int,
                        c0 + j0,
                    ),
            decreases width - j,
        {
            proof {
                lemma_rm_index(m.rows as int, m.cols as int, i as int, c0 + j as int);
                m.lemma_at_bounded(i as int, c0 + j as int);
            }
            data.push(m.data[i * m.cols + (c0 + j)]);
            proof {
                lemma_rm_index(m.rows as int, width as int, i as int, j as int);
                assert forall|i0: int, j0: int| 0 <= i0 < i && 0 <= j0 < width implies #[trigger]
                    data@[i0 * width + j0] == m.at(i0, c0 + j0) by {
                    lemma_rm_index(i as int, width as int, i0, j0);
                };
            }
            j = j + 1;
        }
        i = i + 1;
        proof {
            assert((i - 1) * width + width == i * width) by (nonlinear_arith);
        }
    }
    let r = Matrix { data, rows: m.rows, cols: width };
    proof {
        assert forall|i0: int, j0: int| 0 <= i0 < m.rows && 0 <= j0 < width implies #[trigger] r.at(
            i0,
            j0,
        ) == m.gm().at(i0, c0 + j0) by {
            lemma_rm_index(m.rows as int, width as int, i0, j0);
        };
        assert(r.rows * r.cols == r.data.len()) by (nonlinear_arith)
            requires
                r.data.len() == r.rows * r.cols,
        ;
        lemma_is_flat(r, |i0: int, j0: int| m.gm().at(i0, c0 + j0) as i64);
    }
    r
}

/// Paste `src` into `dst` at column offset `c0`: reassembling the heads.
pub fn paste_cols(dst: &mut Matrix, src: &Matrix, c0: usize)
    requires
        old(dst).wf(),
        src.wf(),
        old(dst).rows == src.rows,
        c0 + src.cols <= old(dst).cols,
    ensures
        final(dst).wf(),
        final(dst).rows == old(dst).rows,
        final(dst).cols == old(dst).cols,
        forall|i: int, j: int|
            0 <= i < src.rows && 0 <= j < src.cols ==> #[trigger] final(dst).at(i, c0 + j)
                == src.at(i, j),
        forall|i: int, j: int|
            0 <= i < old(dst).rows && 0 <= j < old(dst).cols && !(c0 <= j < c0 + src.cols)
                ==> #[trigger] final(dst).at(i, j) == old(dst).at(i, j),
{
    let ghost orig: Matrix = *dst;
    let mut i: usize = 0;
    while i < src.rows
        invariant
            i <= src.rows,
            orig.wf(),
            src.wf(),
            orig.rows == src.rows,
            c0 + src.cols <= orig.cols,
            dst.rows == orig.rows,
            dst.cols == orig.cols,
            dst.data.len() == orig.data.len(),
            forall|t: int| 0 <= t < dst.data.len() ==> -MAX_MAG <= #[trigger] dst.data@[t]
                <= MAX_MAG,
            forall|i0: int, j0: int|
                0 <= i0 < i && 0 <= j0 < src.cols ==> #[trigger] dst.at(i0, c0 + j0) == src.at(
                    i0,
                    j0,
                ),
            forall|i0: int, j0: int|
                0 <= i0 < orig.rows && 0 <= j0 < orig.cols && !(i0 < i && c0 <= j0 < c0 + src.cols)
                    ==> #[trigger] dst.at(i0, j0) == orig.at(i0, j0),
        decreases src.rows - i,
    {
        let mut j: usize = 0;
        while j < src.cols
            invariant
                i < src.rows,
                j <= src.cols,
                orig.wf(),
                src.wf(),
                orig.rows == src.rows,
                c0 + src.cols <= orig.cols,
                dst.rows == orig.rows,
                dst.cols == orig.cols,
                dst.data.len() == orig.data.len(),
                forall|t: int| 0 <= t < dst.data.len() ==> -MAX_MAG <= #[trigger] dst.data@[t]
                    <= MAX_MAG,
                forall|i0: int, j0: int|
                    0 <= i0 < i && 0 <= j0 < src.cols ==> #[trigger] dst.at(i0, c0 + j0) == src.at(
                        i0,
                        j0,
                    ),
                forall|j0: int|
                    0 <= j0 < j ==> #[trigger] dst.at(i as int, c0 + j0) == src.at(i as int, j0),
                forall|i0: int, j0: int|
                    0 <= i0 < orig.rows && 0 <= j0 < orig.cols && !(i0 < i && c0 <= j0 < c0
                        + src.cols) && !(i0 == i && c0 <= j0 < c0 + j) ==> #[trigger] dst.at(
                        i0,
                        j0,
                    ) == orig.at(i0, j0),
            decreases src.cols - j,
        {
            proof {
                lemma_rm_index(src.rows as int, src.cols as int, i as int, j as int);
                lemma_rm_index(orig.rows as int, orig.cols as int, i as int, c0 + j as int);
                src.lemma_at_bounded(i as int, j as int);
            }
            let ghost old_d: Matrix = *dst;
            let v = src.data[i * src.cols + j];
            let idx = i * dst.cols + (c0 + j);
            dst.data.set(idx, v);
            proof {
                let ghost ii: int = i as int;
                let ghost jj: int = (c0 + j) as int;
                assert forall|i0: int, j0: int|
                    0 <= i0 < orig.rows && 0 <= j0 < orig.cols && (i0 != ii || j0 != jj)
                    implies #[trigger] dst.at(i0, j0) == old_d.at(i0, j0) by {
                    lemma_rm_index(orig.rows as int, orig.cols as int, i0, j0);
                    assert(i0 * orig.cols + j0 != ii * orig.cols + jj) by (nonlinear_arith)
                        requires
                            0 <= i0 < orig.rows,
                            0 <= j0 < orig.cols,
                            0 <= ii < orig.rows,
                            0 <= jj < orig.cols,
                            i0 != ii || j0 != jj,
                    ;
                };
                assert(dst.at(i as int, c0 + j as int) == src.at(i as int, j as int)) by {
                    lemma_rm_index(orig.rows as int, orig.cols as int, i as int, c0 + j as int);
                    lemma_rm_index(src.rows as int, src.cols as int, i as int, j as int);
                };
            }
            j = j + 1;
        }
        i = i + 1;
    }
    proof {
        assert(dst.rows * dst.cols == dst.data.len()) by (nonlinear_arith)
            requires
                dst.data.len() == orig.data.len(),
                orig.data.len() == orig.rows * orig.cols,
                dst.rows == orig.rows,
                dst.cols == orig.cols,
        ;
    }
}

/// The dot product of row `i` of `a` with row `j` of `b`, over the first `k`
/// positions: the building block of a product against a transposed matrix.
pub open spec fn dot_t(a: GMat, b: GMat, i: int, j: int, k: nat) -> int
    decreases k,
{
    if k == 0 {
        0
    } else {
        dot_t(a, b, i, j, (k - 1) as nat) + a.at(i, k - 1) * b.at(j, k - 1)
    }
}

/// The entry of `a * transpose(b)`, rescaled to Q16.16 and clamped.
pub open spec fn spec_matmul_t_at(a: GMat, b: GMat, i: int, j: int) -> int {
    spec_clamp(tdiv(dot_t(a, b, i, j, a.cols as nat), FP as int), -MAX_MAG as int, MAX_MAG as int)
}

/// The product against a transposed matrix, at the ghost level.
pub open spec fn s_matmul_t(a: GMat, b: GMat) -> GMat {
    flat(a.rows, b.rows, |i: int, j: int| spec_matmul_t_at(a, b, i, j) as i64)
}

proof fn lemma_dot_t_bound(a: GMat, b: GMat, i: int, j: int, k: nat)
    requires
        a.wf(),
        b.wf(),
        a.cols == b.cols,
        0 <= i < a.rows,
        0 <= j < b.rows,
        k <= a.cols,
    ensures
        -(k * MAX_MAG * MAX_MAG) <= dot_t(a, b, i, j, k) <= k * MAX_MAG * MAX_MAG,
    decreases k,
{
    if k > 0 {
        lemma_dot_t_bound(a, b, i, j, (k - 1) as nat);
        lemma_gat_bounded(a, i, k - 1);
        lemma_gat_bounded(b, j, k - 1);
        lemma_abs_mul(a.at(i, k - 1), b.at(j, k - 1), MAX_MAG as int, MAX_MAG as int);
        assert((k - 1) * MAX_MAG * MAX_MAG + MAX_MAG * MAX_MAG == k * MAX_MAG * MAX_MAG)
            by (nonlinear_arith);
    }
}

/// Matrix product against the transpose of `b`, entry-exact: used for the
/// attention scores (query against keys) and the output projection against
/// the embedding table.
pub fn matmul_t(a: &Matrix, b: &Matrix) -> (r: Matrix)
    requires
        a.wf(),
        b.wf(),
        a.cols == b.cols,
    ensures
        r.wf(),
        r.rows == a.rows,
        r.cols == b.rows,
        r.gm() == s_matmul_t(a.gm(), b.gm()),
{
    let mut data: Vec<i64> = Vec::new();
    let mut i: usize = 0;
    while i < a.rows
        invariant
            i <= a.rows,
            a.wf(),
            b.wf(),
            a.cols == b.cols,
            data.len() == i * b.rows,
            forall|t: int| 0 <= t < data.len() ==> -MAX_MAG <= #[trigger] data@[t] <= MAX_MAG,
            forall|i0: int, j0: int|
                0 <= i0 < i && 0 <= j0 < b.rows ==> #[trigger] data@[i0 * b.rows + j0]
                    == spec_matmul_t_at(a.gm(), b.gm(), i0, j0),
        decreases a.rows - i,
    {
        let mut j: usize = 0;
        while j < b.rows
            invariant
                i < a.rows,
                j <= b.rows,
                a.wf(),
                b.wf(),
                a.cols == b.cols,
                data.len() == i * b.rows + j,
                forall|t: int| 0 <= t < data.len() ==> -MAX_MAG <= #[trigger] data@[t] <= MAX_MAG,
                forall|i0: int, j0: int|
                    0 <= i0 < i && 0 <= j0 < b.rows ==> #[trigger] data@[i0 * b.rows + j0]
                        == spec_matmul_t_at(a.gm(), b.gm(), i0, j0),
                forall|j0: int|
                    0 <= j0 < j ==> #[trigger] data@[i as int * b.rows + j0] == spec_matmul_t_at(
                        a.gm(),
                        b.gm(),
                        i as int,
                        j0,
                    ),
            decreases b.rows - j,
        {
            let mut acc: i128 = 0;
            let mut k: usize = 0;
            while k < a.cols
                invariant
                    i < a.rows,
                    j < b.rows,
                    k <= a.cols,
                    a.wf(),
                    b.wf(),
                    a.cols == b.cols,
                    acc == dot_t(a.gm(), b.gm(), i as int, j as int, k as nat),
                    -(k * MAX_MAG * MAX_MAG) <= acc <= k * MAX_MAG * MAX_MAG,
                decreases a.cols - k,
            {
                proof {
                    lemma_rm_index(a.rows as int, a.cols as int, i as int, k as int);
                    lemma_rm_index(b.rows as int, b.cols as int, j as int, k as int);
                    a.lemma_at_bounded(i as int, k as int);
                    b.lemma_at_bounded(j as int, k as int);
                    lemma_abs_mul(
                        a.at(i as int, k as int),
                        b.at(j as int, k as int),
                        MAX_MAG as int,
                        MAX_MAG as int,
                    );
                    assert(k * MAX_MAG * MAX_MAG + MAX_MAG * MAX_MAG == (k + 1) * MAX_MAG
                        * MAX_MAG) by (nonlinear_arith);
                    assert((k + 1) * MAX_MAG * MAX_MAG <= MAX_DIM * MAX_MAG * MAX_MAG)
                        by (nonlinear_arith)
                        requires
                            k + 1 <= MAX_DIM,
                    ;
                }
                let av: i64 = a.data[i * a.cols + k];
                let bv: i64 = b.data[j * b.cols + k];
                acc = acc + (av as i128) * (bv as i128);
                k = k + 1;
            }
            proof {
                lemma_dot_t_bound(a.gm(), b.gm(), i as int, j as int, a.cols as nat);
                assert(a.cols * MAX_MAG * MAX_MAG <= MAX_DIM * MAX_MAG * MAX_MAG)
                    by (nonlinear_arith)
                    requires
                        a.cols <= MAX_DIM,
                ;
            }
            let q: i128 = acc / (FP as i128);
            let v: i64 = if q < -(MAX_MAG as i128) {
                -MAX_MAG
            } else if q > MAX_MAG as i128 {
                MAX_MAG
            } else {
                q as i64
            };
            assert(v == spec_matmul_t_at(a.gm(), b.gm(), i as int, j as int));
            data.push(v);
            proof {
                lemma_rm_index(a.rows as int, b.rows as int, i as int, j as int);
                assert forall|i0: int, j0: int| 0 <= i0 < i && 0 <= j0 < b.rows implies #[trigger]
                    data@[i0 * b.rows + j0] == spec_matmul_t_at(a.gm(), b.gm(), i0, j0) by {
                    lemma_rm_index(i as int, b.rows as int, i0, j0);
                };
            }
            j = j + 1;
        }
        i = i + 1;
        proof {
            assert((i - 1) * b.rows + b.rows == i * b.rows) by (nonlinear_arith);
        }
    }
    let r = Matrix { data, rows: a.rows, cols: b.rows };
    proof {
        assert(r.rows * r.cols == r.data.len()) by (nonlinear_arith)
            requires
                r.data.len() == r.rows * r.cols,
        ;
        assert forall|i0: int, j0: int| 0 <= i0 < a.rows && 0 <= j0 < b.rows implies #[trigger] r.at(
            i0,
            j0,
        ) == spec_matmul_t_at(a.gm(), b.gm(), i0, j0) by {
            lemma_rm_index(a.rows as int, b.rows as int, i0, j0);
        };
        lemma_is_flat(r, |i0: int, j0: int| spec_matmul_t_at(a.gm(), b.gm(), i0, j0) as i64);
    }
    r
}

/// The entry of a row-bias addition.
pub open spec fn spec_add_bias_at(a: GMat, bias: Seq<i64>, i: int, j: int) -> int {
    spec_clamp(a.at(i, j) + bias[j], -MAX_MAG as int, MAX_MAG as int)
}

/// Row-bias addition at the ghost level.
pub open spec fn s_add_bias(a: GMat, bias: Seq<i64>) -> GMat {
    flat(a.rows, a.cols, |i: int, j: int| spec_add_bias_at(a, bias, i, j) as i64)
}

/// Add a bias vector to every row, clamped: the affine part of a linear
/// projection.
pub fn add_row_bias(a: &Matrix, bias: &Vec<i64>) -> (r: Matrix)
    requires
        a.wf(),
        bias.len() == a.cols,
        forall|k: int| 0 <= k < bias.len() ==> -MAX_MAG <= #[trigger] bias@[k] <= MAX_MAG,
    ensures
        r.wf(),
        r.rows == a.rows,
        r.cols == a.cols,
        r.gm() == s_add_bias(a.gm(), bias@),
{
    let mut data: Vec<i64> = Vec::new();
    let mut i: usize = 0;
    while i < a.rows
        invariant
            i <= a.rows,
            a.wf(),
            bias.len() == a.cols,
            forall|t: int| 0 <= t < bias.len() ==> -MAX_MAG <= #[trigger] bias@[t] <= MAX_MAG,
            data.len() == i * a.cols,
            forall|t: int| 0 <= t < data.len() ==> -MAX_MAG <= #[trigger] data@[t] <= MAX_MAG,
            forall|i0: int, j0: int|
                0 <= i0 < i && 0 <= j0 < a.cols ==> #[trigger] data@[i0 * a.cols + j0]
                    == spec_add_bias_at(a.gm(), bias@, i0, j0),
        decreases a.rows - i,
    {
        let mut j: usize = 0;
        while j < a.cols
            invariant
                i < a.rows,
                j <= a.cols,
                a.wf(),
                bias.len() == a.cols,
                forall|t: int| 0 <= t < bias.len() ==> -MAX_MAG <= #[trigger] bias@[t] <= MAX_MAG,
                data.len() == i * a.cols + j,
                forall|t: int| 0 <= t < data.len() ==> -MAX_MAG <= #[trigger] data@[t] <= MAX_MAG,
                forall|i0: int, j0: int|
                    0 <= i0 < i && 0 <= j0 < a.cols ==> #[trigger] data@[i0 * a.cols + j0]
                        == spec_add_bias_at(a.gm(), bias@, i0, j0),
                forall|j0: int|
                    0 <= j0 < j ==> #[trigger] data@[i as int * a.cols + j0] == spec_add_bias_at(
                        a.gm(),
                        bias@,
                        i as int,
                        j0,
                    ),
            decreases a.cols - j,
        {
            proof {
                lemma_rm_index(a.rows as int, a.cols as int, i as int, j as int);
                a.lemma_at_bounded(i as int, j as int);
            }
            let s: i64 = a.data[i * a.cols + j] + bias[j];
            let v = crate::fixed::clamp_i64(s, -MAX_MAG, MAX_MAG);
            data.push(v);
            proof {
                assert forall|i0: int, j0: int| 0 <= i0 < i && 0 <= j0 < a.cols implies #[trigger]
                    data@[i0 * a.cols + j0] == spec_add_bias_at(a.gm(), bias@, i0, j0) by {
                    lemma_rm_index(i as int, a.cols as int, i0, j0);
                };
            }
            j = j + 1;
        }
        i = i + 1;
        proof {
            assert((i - 1) * a.cols + a.cols == i * a.cols) by (nonlinear_arith);
        }
    }
    let r = Matrix { data, rows: a.rows, cols: a.cols };
    proof {
        assert(r.rows * r.cols == r.data.len()) by (nonlinear_arith)
            requires
                r.data.len() == r.rows * r.cols,
        ;
        assert forall|i0: int, j0: int| 0 <= i0 < a.rows && 0 <= j0 < a.cols implies #[trigger] r.at(
            i0,
            j0,
        ) == spec_add_bias_at(a.gm(), bias@, i0, j0) by {
            lemma_rm_index(a.rows as int, a.cols as int, i0, j0);
        };
        lemma_is_flat(r, |i0: int, j0: int| spec_add_bias_at(a.gm(), bias@, i0, j0) as i64);
    }
    r
}

/// The entry of the element-wise clamped sum.
pub open spec fn spec_add_at(a: GMat, b: GMat, i: int, j: int) -> int {
    spec_clamp(a.at(i, j) + b.at(i, j), -MAX_MAG as int, MAX_MAG as int)
}

/// Element-wise clamped sum at the ghost level.
pub open spec fn s_add(a: GMat, b: GMat) -> GMat {
    flat(a.rows, a.cols, |i: int, j: int| spec_add_at(a, b, i, j) as i64)
}

/// The residual connection at the ghost level, tied to `add_clamped`.
pub proof fn lemma_add_is_flat(a: Matrix, b: Matrix, r: Matrix)
    requires
        a.wf(),
        b.wf(),
        a.rows == b.rows,
        a.cols == b.cols,
        r.rows == a.rows,
        r.cols == a.cols,
        r.data.len() == a.data.len(),
        forall|k: int| 0 <= k < a.data.len() ==> #[trigger] r.data@[k] == spec_clamp(
            a.data@[k] + b.data@[k],
            -MAX_MAG as int,
            MAX_MAG as int,
        ),
    ensures
        r.gm() == s_add(a.gm(), b.gm()),
{
    assert forall|i0: int, j0: int| 0 <= i0 < r.rows && 0 <= j0 < r.cols implies #[trigger] r.gm().at(
        i0,
        j0,
    ) == spec_add_at(a.gm(), b.gm(), i0, j0) as i64 by {
        lemma_rm_index(r.rows as int, r.cols as int, i0, j0);
    };
    lemma_add_shape(r, a, b);
    lemma_is_flat(r, |i0: int, j0: int| spec_add_at(a.gm(), b.gm(), i0, j0) as i64);
}

/// Shape bookkeeping for `lemma_add_is_flat`.
proof fn lemma_add_shape(r: Matrix, a: Matrix, b: Matrix)
    requires
        r.rows == a.rows,
        r.cols == a.cols,
        r.data.len() == a.data.len(),
        a.data.len() == a.rows * a.cols,
    ensures
        r.data.len() == r.rows * r.cols,
{
}

/// The entry of a scalar division: `x * FP / denom`, clamped.
pub open spec fn spec_scale_div_at(a: GMat, denom: int, i: int, j: int) -> int {
    spec_clamp(tdiv(a.at(i, j) * FP, denom), -MAX_MAG as int, MAX_MAG as int)
}

/// Scalar division at the ghost level.
pub open spec fn s_scale_div(a: GMat, denom: int) -> GMat {
    flat(a.rows, a.cols, |i: int, j: int| spec_scale_div_at(a, denom, i, j) as i64)
}

/// Divide every entry by `denom / FP` (a positive Q16.16 scalar), clamped:
/// the attention-score scaling by `1/sqrt(head_dim)`.
pub fn scale_div(a: &Matrix, denom: i64) -> (r: Matrix)
    requires
        a.wf(),
        denom >= 1,
    ensures
        r.wf(),
        r.rows == a.rows,
        r.cols == a.cols,
        r.gm() == s_scale_div(a.gm(), denom as int),
{
    let mut data: Vec<i64> = Vec::new();
    let mut i: usize = 0;
    while i < a.rows
        invariant
            i <= a.rows,
            a.wf(),
            denom >= 1,
            data.len() == i * a.cols,
            forall|t: int| 0 <= t < data.len() ==> -MAX_MAG <= #[trigger] data@[t] <= MAX_MAG,
            forall|i0: int, j0: int|
                0 <= i0 < i && 0 <= j0 < a.cols ==> #[trigger] data@[i0 * a.cols + j0]
                    == spec_scale_div_at(a.gm(), denom as int, i0, j0),
        decreases a.rows - i,
    {
        let mut j: usize = 0;
        while j < a.cols
            invariant
                i < a.rows,
                j <= a.cols,
                a.wf(),
                denom >= 1,
                data.len() == i * a.cols + j,
                forall|t: int| 0 <= t < data.len() ==> -MAX_MAG <= #[trigger] data@[t] <= MAX_MAG,
                forall|i0: int, j0: int|
                    0 <= i0 < i && 0 <= j0 < a.cols ==> #[trigger] data@[i0 * a.cols + j0]
                        == spec_scale_div_at(a.gm(), denom as int, i0, j0),
                forall|j0: int|
                    0 <= j0 < j ==> #[trigger] data@[i as int * a.cols + j0] == spec_scale_div_at(
                        a.gm(),
                        denom as int,
                        i as int,
                        j0,
                    ),
            decreases a.cols - j,
        {
            proof {
                lemma_rm_index(a.rows as int, a.cols as int, i as int, j as int);
                a.lemma_at_bounded(i as int, j as int);
                lemma_abs_mul(a.at(i as int, j as int), FP as int, MAX_MAG as int, FP as int);
            }
            let x: i64 = a.data[i * a.cols + j];
            let num: i128 = (x as i128) * (FP as i128);
            let q: i128 = num / (denom as i128);
            proof {
                crate::fixed::lemma_tdiv_bound(
                    num as int,
                    denom as int,
                    (MAX_MAG as int) * (FP as int),
                );
            }
            let v: i64 = if q < -(MAX_MAG as i128) {
                -MAX_MAG
            } else if q > MAX_MAG as i128 {
                MAX_MAG
            } else {
                q as i64
            };
            data.push(v);
            proof {
                assert forall|i0: int, j0: int| 0 <= i0 < i && 0 <= j0 < a.cols implies #[trigger]
                    data@[i0 * a.cols + j0] == spec_scale_div_at(a.gm(), denom as int, i0, j0) by {
                    lemma_rm_index(i as int, a.cols as int, i0, j0);
                };
            }
            j = j + 1;
        }
        i = i + 1;
        proof {
            assert((i - 1) * a.cols + a.cols == i * a.cols) by (nonlinear_arith);
        }
    }
    let r = Matrix { data, rows: a.rows, cols: a.cols };
    proof {
        assert(r.rows * r.cols == r.data.len()) by (nonlinear_arith)
            requires
                r.data.len() == r.rows * r.cols,
        ;
        assert forall|i0: int, j0: int| 0 <= i0 < a.rows && 0 <= j0 < a.cols implies #[trigger] r.at(
            i0,
            j0,
        ) == spec_scale_div_at(a.gm(), denom as int, i0, j0) by {
            lemma_rm_index(a.rows as int, a.cols as int, i0, j0);
        };
        lemma_is_flat(r, |i0: int, j0: int| spec_scale_div_at(a.gm(), denom as int, i0, j0) as i64);
    }
    r
}

/// The embedding of token `ids[i]`: row `ids[i]` of the table.
pub open spec fn s_embed(emb: GMat, ids: Seq<u32>) -> GMat {
    flat(ids.len() as int, emb.cols, |i: int, j: int| emb.at(ids[i] as int, j) as i64)
}

/// Gather the embedding row of each token id: the embedding lookup.
pub fn embed_rows(emb: &Matrix, ids: &Vec<u32>) -> (r: Matrix)
    requires
        emb.wf(),
        ids.len() <= MAX_DIM,
        forall|k: int| 0 <= k < ids.len() ==> (#[trigger] ids@[k] as int) < emb.rows,
    ensures
        r.wf(),
        r.rows == ids.len(),
        r.cols == emb.cols,
        r.gm() == s_embed(emb.gm(), ids@),
{
    let mut data: Vec<i64> = Vec::new();
    let mut i: usize = 0;
    while i < ids.len()
        invariant
            i <= ids.len(),
            emb.wf(),
            ids.len() <= MAX_DIM,
            forall|k: int| 0 <= k < ids.len() ==> (#[trigger] ids@[k] as int) < emb.rows,
            data.len() == i * emb.cols,
            forall|t: int| 0 <= t < data.len() ==> -MAX_MAG <= #[trigger] data@[t] <= MAX_MAG,
            forall|i0: int, j0: int|
                0 <= i0 < i && 0 <= j0 < emb.cols ==> #[trigger] data@[i0 * emb.cols + j0]
                    == emb.at(ids@[i0] as int, j0),
        decreases ids.len() - i,
    {
        let row_idx: usize = ids[i] as usize;
        let mut j: usize = 0;
        while j < emb.cols
            invariant
                i < ids.len(),
                j <= emb.cols,
                emb.wf(),
                ids.len() <= MAX_DIM,
                row_idx < emb.rows,
                row_idx == ids@[i as int] as int,
                forall|k: int| 0 <= k < ids.len() ==> (#[trigger] ids@[k] as int) < emb.rows,
                data.len() == i * emb.cols + j,
                forall|t: int| 0 <= t < data.len() ==> -MAX_MAG <= #[trigger] data@[t] <= MAX_MAG,
                forall|i0: int, j0: int|
                    0 <= i0 < i && 0 <= j0 < emb.cols ==> #[trigger] data@[i0 * emb.cols + j0]
                        == emb.at(ids@[i0] as int, j0),
                forall|j0: int|
                    0 <= j0 < j ==> #[trigger] data@[i as int * emb.cols + j0] == emb.at(
                        ids@[i as int] as int,
                        j0,
                    ),
            decreases emb.cols - j,
        {
            proof {
                lemma_rm_index(emb.rows as int, emb.cols as int, row_idx as int, j as int);
                emb.lemma_at_bounded(row_idx as int, j as int);
            }
            data.push(emb.data[row_idx * emb.cols + j]);
            proof {
                lemma_rm_index(ids.len() as int, emb.cols as int, i as int, j as int);
                assert forall|i0: int, j0: int| 0 <= i0 < i && 0 <= j0 < emb.cols implies #[trigger]
                    data@[i0 * emb.cols + j0] == emb.at(ids@[i0] as int, j0) by {
                    lemma_rm_index(i as int, emb.cols as int, i0, j0);
                };
            }
            j = j + 1;
        }
        i = i + 1;
        proof {
            assert((i - 1) * emb.cols + emb.cols == i * emb.cols) by (nonlinear_arith);
        }
    }
    let r = Matrix { data, rows: ids.len(), cols: emb.cols };
    proof {
        assert(r.rows * r.cols == r.data.len()) by (nonlinear_arith)
            requires
                r.data.len() == r.rows * r.cols,
        ;
        assert forall|i0: int, j0: int| 0 <= i0 < r.rows && 0 <= j0 < r.cols implies #[trigger] r.at(
            i0,
            j0,
        ) == emb.gm().at(ids@[i0] as int, j0) by {
            lemma_rm_index(r.rows as int, r.cols as int, i0, j0);
        };
        lemma_is_flat(r, |i0: int, j0: int| emb.gm().at(ids@[i0] as int, j0) as i64);
    }
    r
}

} // verus!
