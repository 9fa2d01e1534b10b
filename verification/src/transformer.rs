//! The transformer stack: embeddings, attention/feed-forward layers, layer
//! normalization, and the forward pass, all over fixed-point matrices.
//!
//! Every stage has a functional contract — the result equals a spec-level
//! function of the inputs — so the whole forward pass is provably a pure
//! function of the weights and the token ids (no hidden randomness), and
//! every stage re-establishes the bounded-activation invariant: the output
//! of a forward pass over well-formed weights is always finite and bounded,
//! even for the synthetic all-zero fallback weights.

use vstd::prelude::*;

use crate::fixed::{clamp_i64, exp_q, isqrt_u64, lemma_exp_q_bounds, lemma_tdiv_bound,
    lemma_tdiv_mag, spec_clamp, spec_exp_q, tdiv, EXP_ARG_CAP, FP, MAX_MAG};
use crate::sampler::{lemma_sum_ge_term, softmax_weights, spec_weight, sum_weights};
use crate::tensor::{flat, lemma_is_flat, lemma_rm_index, GMat, Matrix};

verus! {

/// `sqrt(2/pi)` in Q16.16, used by the tanh form of the GELU nonlinearity.
pub const GELU_SQRT_2_OVER_PI: i64 = 52293;

/// The cubic coefficient `0.044715` of the GELU argument, in Q16.16.
pub const GELU_CUBIC: i64 = 2931;

/// The integer square root as a mathematical function: the unique
/// non-negative `r` with `r^2 <= v < (r+1)^2`.
pub open spec fn spec_isqrt(v: int) -> int {
    choose|r: int| 0 <= r && (#[trigger] (r * r)) <= v && (r + 1) * (r + 1) > v
}

/// A value satisfying the square-root property is the square root.
pub proof fn lemma_isqrt_val(v: int, r: int)
    requires
        0 <= r,
        r * r <= v,
        (r + 1) * (r + 1) > v,
    ensures
        spec_isqrt(v) == r,
{
    assert(exists|x: int| 0 <= x && (#[trigger] (x * x)) <= v && (x + 1) * (x + 1) > v) by {
        assert(0 <= r && r * r <= v && (r + 1) * (r + 1) > v);
    };
    let c = spec_isqrt(v);
    assert(0 <= c && c * c <= v && (c + 1) * (c + 1) > v);
    if c < r {
        assert((c + 1) * (c + 1) <= r * r) by (nonlinear_arith)
            requires
                0 <= c,
                c + 1 <= r,
        ;
    }
    if r < c {
        assert((r + 1) * (r + 1) <= c * c) by (nonlinear_arith)
            requires
                0 <= r,
                r + 1 <= c,
        ;
    }
}

/// The hyperbolic tangent in Q16.16, via the capped exponential:
/// `tanh(z) = (1 - e^(-2|z|)) / (1 + e^(-2|z|))`, with the sign of `z`.
pub open spec fn spec_tanh(z: int) -> int {
    let za = if z >= 0 {
        z
    } else {
        -z
    };
    let arg = if 2 * za > EXP_ARG_CAP {
        EXP_ARG_CAP as int
    } else {
        2 * za
    };
    let e = spec_exp_q(arg);
    let th = tdiv((FP - e) * FP, FP + e);
    if z >= 0 {
        th
    } else {
        -th
    }
}

/// Largest tanh argument the engine ever produces (a loose cap that the
/// GELU argument arithmetic stays under).
pub const MAX_TANH_ARG: i64 = 0x40_0000_0000_0000;

/// `tanh` in Q16.16, exactly `spec_tanh`, always within `[-FP, FP]`.
pub fn tanh_q(z: i64) -> (r: i64)
    requires
        -MAX_TANH_ARG <= z <= MAX_TANH_ARG,
    ensures
        r == spec_tanh(z as int),
        -FP <= r <= FP,
{
    let za: i64 = if z >= 0 {
        z
    } else {
        -z
    };
    let arg: i64 = if za > EXP_ARG_CAP / 2 {
        EXP_ARG_CAP
    } else {
        2 * za
    };
    assert(arg == if 2 * (za as int) > EXP_ARG_CAP {
        EXP_ARG_CAP as int
    } else {
        2 * (za as int)
    });
    let e: u64 = exp_q(arg);
    let e_i: i64 = e as i64;
    let num: i64 = (FP - e_i) * FP;
    let den: i64 = FP + e_i;
    let th: i64 = num / den;
    proof {
        assert(0 <= num <= FP * FP);
        vstd::arithmetic::div_mod::lemma_div_pos_is_pos(num as int, den as int);
        vstd::arithmetic::div_mod::lemma_div_is_ordered(num as int, (den as int) * (FP as int), den as int);
        assert(((den as int) * (FP as int)) / (den as int) == FP) by {
            vstd::arithmetic::div_mod::lemma_div_multiples_vanish(FP as int, den as int);
        };
        assert(num <= (den as int) * (FP as int)) by (nonlinear_arith)
            requires
                num == (FP - e_i) * FP,
                den == FP + e_i,
                0 <= e_i <= FP,
        ;
    }
    if z >= 0 {
        th
    } else {
        -th
    }
}

/// The GELU nonlinearity in Q16.16: the tanh approximation
/// `0.5 * x * (1 + tanh(sqrt(2/pi) * (x + 0.044715 * x^3)))`, clamped.
pub open spec fn spec_gelu(x: int) -> int {
    let x2 = tdiv(x * x, FP as int);
    let x3 = tdiv(x2 * x, FP as int);
    let c3 = tdiv(GELU_CUBIC * x3, FP as int);
    let inner = x + c3;
    let z = tdiv(GELU_SQRT_2_OVER_PI * inner, FP as int);
    spec_clamp(tdiv(x * (FP + spec_tanh(z)), 2 * FP), -MAX_MAG as int, MAX_MAG as int)
}

/// GELU on one fixed-point value, exactly `spec_gelu`.
pub fn gelu_q(x: i64) -> (r: i64)
    requires
        -MAX_MAG <= x <= MAX_MAG,
    ensures
        r == spec_gelu(x as int),
        -MAX_MAG <= r <= MAX_MAG,
{
    proof {
        crate::tensor::lemma_abs_mul(x as int, x as int, MAX_MAG as int, MAX_MAG as int);
    }
    let x2: i64 = (x * x) / FP;
    proof {
        lemma_tdiv_mag((x as int) * (x as int), FP as int, (MAX_MAG as int) * (MAX_MAG as int));
        assert((MAX_MAG as int) * (MAX_MAG as int) / (FP as int) == 65536000000int);
        crate::tensor::lemma_abs_mul(x2 as int, x as int, 65536000000int, MAX_MAG as int);
    }
    let x3: i64 = (x2 * x) / FP;
    proof {
        lemma_tdiv_mag((x2 as int) * (x as int), FP as int, 65536000000int * (MAX_MAG as int));
        assert(65536000000int * (MAX_MAG as int) == 4294967296000000000int);
        assert(4294967296000000000int / (FP as int) == 65536000000000int);
        crate::tensor::lemma_abs_mul(GELU_CUBIC as int, x3 as int, 2931int, 65536000000000int);
    }
    let c3: i64 = (GELU_CUBIC * x3) / FP;
    proof {
        lemma_tdiv_mag((GELU_CUBIC as int) * (x3 as int), FP as int, 2931int * 65536000000000int);
        assert(2931int * 65536000000000int / (FP as int) == 2931000000000int);
    }
    let inner: i64 = x + c3;
    proof {
        crate::tensor::lemma_abs_mul(
            GELU_SQRT_2_OVER_PI as int,
            inner as int,
            52293int,
            2931000000000int + MAX_MAG as int,
        );
    }
    let z: i64 = (GELU_SQRT_2_OVER_PI * inner) / FP;
    proof {
        lemma_tdiv_mag(
            (GELU_SQRT_2_OVER_PI as int) * (inner as int),
            FP as int,
            52293int * (2931000000000int + MAX_MAG as int),
        );
        assert(52293int * (2931000000000int + MAX_MAG as int) / (FP as int) < MAX_TANH_ARG as int);
    }
    let t: i64 = tanh_q(z);
    proof {
        crate::tensor::lemma_abs_mul(x as int, FP as int + t as int, MAX_MAG as int, 2 * FP);
    }
    let num: i64 = x * (FP + t);
    let g: i64 = num / (2 * FP);
    clamp_i64(g, -MAX_MAG, MAX_MAG)
}

/// GELU applied to every entry, at the ghost level.
pub open spec fn s_gelu(a: GMat) -> GMat {
    flat(a.rows, a.cols, |i: int, j: int| spec_gelu(a.at(i, j)) as i64)
}

/// GELU applied to every entry of a matrix.
pub fn gelu_rows(m: &Matrix) -> (r: Matrix)
    requires
        m.wf(),
    ensures
        r.wf(),
        r.rows == m.rows,
        r.cols == m.cols,
        r.gm() == s_gelu(m.gm()),
{
    let mut data: Vec<i64> = Vec::new();
    let mut i: usize = 0;
    while i < m.rows
        invariant
            i <= m.rows,
            m.wf(),
            data.len() == i * m.cols,
            forall|t: int| 0 <= t < data.len() ==> -MAX_MAG <= #[trigger] data@[t] <= MAX_MAG,
            forall|i0: int, j0: int|
                0 <= i0 < i && 0 <= j0 < m.cols ==> #[trigger] data@[i0 * m.cols + j0] == spec_gelu(
                    m.gm().at(i0, j0),
                ),
        decreases m.rows - i,
    {
        let mut j: usize = 0;
        while j < m.cols
            invariant
                i < m.rows,
                j <= m.cols,
                m.wf(),
                data.len() == i * m.cols + j,
                forall|t: int| 0 <= t < data.len() ==> -MAX_MAG <= #[trigger] data@[t] <= MAX_MAG,
                forall|i0: int, j0: int|
                    0 <= i0 < i && 0 <= j0 < m.cols ==> #[trigger] data@[i0 * m.cols + j0]
                        == spec_gelu(m.gm().at(i0, j0)),
                forall|j0: int|
                    0 <= j0 < j ==> #[trigger] data@[i as int * m.cols + j0] == spec_gelu(
                        m.gm().at(i as int, j0),
                    ),
            decreases m.cols - j,
        {
            proof {
                lemma_rm_index(m.rows as int, m.cols as int, i as int, j as int);
                m.lemma_at_bounded(i as int, j as int);
            }
            let v = gelu_q(m.data[i * m.cols + j]);
            data.push(v);
            proof {
                assert forall|i0: int, j0: int| 0 <= i0 < i && 0 <= j0 < m.cols implies #[trigger]
                    data@[i0 * m.cols + j0] == spec_gelu(m.gm().at(i0, j0)) by {
                    lemma_rm_index(i as int, m.cols as int, i0, j0);
                };
            }
            j = j + 1;
        }
        i = i + 1;
        proof {
            assert((i - 1) * m.cols + m.cols == i * m.cols) by (nonlinear_arith);
        }
    }
    let r = Matrix { data, rows: m.rows, cols: m.cols };
    proof {
        assert(r.rows * r.cols == r.data.len()) by (nonlinear_arith)
            requires
                r.data.len() == r.rows * r.cols,
        ;
        assert forall|i0: int, j0: int| 0 <= i0 < r.rows && 0 <= j0 < r.cols implies #[trigger] r.at(
            i0,
            j0,
        ) == spec_gelu(m.gm().at(i0, j0)) as i64 by {
            lemma_rm_index(r.rows as int, r.cols as int, i0, j0);
        };
        lemma_is_flat(r, |i0: int, j0: int| spec_gelu(m.gm().at(i0, j0)) as i64);
    }
    r
}

/// Sum of the first `n` elements of a row.
pub open spec fn row_sum(s: Seq<i64>, n: nat) -> int
    decreases n,
{
    if n == 0 {
        0
    } else {
        row_sum(s, (n - 1) as nat) + s[n - 1]
    }
}

/// Sum of squared deviations from `mean` over the first `n` elements.
pub open spec fn sq_dev_sum(s: Seq<i64>, mean: int, n: nat) -> int
    decreases n,
{
    if n == 0 {
        0
    } else {
        sq_dev_sum(s, mean, (n - 1) as nat) + (s[n - 1] - mean) * (s[n - 1] - mean)
    }
}

/// The row mean.
pub open spec fn spec_ln_mean(s: Seq<i64>) -> int {
    tdiv(row_sum(s, s.len()), s.len() as int)
}

/// The layer-norm divisor: the square root of the stabilized variance.
/// The stabilizing `eps` (at least one fixed-point unit) is always added, so
/// a degenerate row — zero variance, as with all-zero fallback weights —
/// still yields a divisor of at least one: no division by near-zero occurs.
pub open spec fn spec_ln_denom(s: Seq<i64>, eps: int) -> int {
    let mean = spec_ln_mean(s);
    let var_raw = tdiv(sq_dev_sum(s, mean, s.len()), s.len() as int);
    let var_q = tdiv(var_raw, FP as int);
    spec_isqrt((var_q + eps) * FP)
}

/// One normalized, affinely rescaled entry of a row.
pub open spec fn spec_ln_entry(s: Seq<i64>, w: Seq<i64>, b: Seq<i64>, eps: int, j: int) -> int {
    let mean = spec_ln_mean(s);
    let denom = spec_ln_denom(s, eps);
    let nj = tdiv((s[j] - mean) * FP, denom);
    spec_clamp(tdiv(nj * w[j], FP as int) + b[j], -MAX_MAG as int, MAX_MAG as int)
}

/// Layer normalization at the ghost level.
pub open spec fn s_layer_norm(a: GMat, w: Seq<i64>, b: Seq<i64>, eps: int) -> GMat {
    flat(a.rows, a.cols, |i: int, j: int| spec_ln_entry(a.row(i), w, b, eps, j) as i64)
}

/// A partial row sum of bounded entries is bounded.
proof fn lemma_row_sum_bound(s: Seq<i64>, n: nat)
    requires
        n <= s.len(),
        forall|k: int| 0 <= k < s.len() ==> -MAX_MAG <= #[trigger] s[k] <= MAX_MAG,
    ensures
        -(n * MAX_MAG) <= row_sum(s, n) <= n * MAX_MAG,
    decreases n,
{
    if n > 0 {
        lemma_row_sum_bound(s, (n - 1) as nat);
        assert((n - 1) * MAX_MAG + MAX_MAG == n * MAX_MAG) by (nonlinear_arith);
    }
}

/// A partial squared-deviation sum is non-negative and bounded.
proof fn lemma_sq_dev_bound(s: Seq<i64>, mean: int, n: nat)
    requires
        n <= s.len(),
        -MAX_MAG <= mean <= MAX_MAG,
        forall|k: int| 0 <= k < s.len() ==> -MAX_MAG <= #[trigger] s[k] <= MAX_MAG,
    ensures
        0 <= sq_dev_sum(s, mean, n) <= n * (4 * MAX_MAG * MAX_MAG),
    decreases n,
{
    if n > 0 {
        lemma_sq_dev_bound(s, mean, (n - 1) as nat);
        let d = s[n - 1] - mean;
        assert(0 <= d * d <= 4 * MAX_MAG * MAX_MAG) by (nonlinear_arith)
            requires
                -2 * MAX_MAG <= d <= 2 * MAX_MAG,
        ;
        assert((n - 1) * (4 * MAX_MAG * MAX_MAG) + 4 * MAX_MAG * MAX_MAG == n * (4 * MAX_MAG
            * MAX_MAG)) by (nonlinear_arith);
    }
}

/// The layer-norm state of one row: its mean and stabilized divisor.
fn ln_row_stats(row: &Vec<i64>, eps_q: i64) -> (r: (i64, u64))
    requires
        0 < row.len() <= crate::tensor::MAX_DIM,
        1 <= eps_q <= FP,
        forall|k: int| 0 <= k < row.len() ==> -MAX_MAG <= #[trigger] row@[k] <= MAX_MAG,
    ensures
        r.0 == spec_ln_mean(row@),
        -MAX_MAG <= r.0 <= MAX_MAG,
        r.1 == spec_ln_denom(row@, eps_q as int),
        1 <= r.1 <= 0x1_0000_0000,
{
    let n = row.len();
    let mut acc: i128 = 0;
    let mut k: usize = 0;
    while k < n
        invariant
            k <= n,
            n == row.len(),
            n <= crate::tensor::MAX_DIM,
            forall|t: int| 0 <= t < row.len() ==> -MAX_MAG <= #[trigger] row@[t] <= MAX_MAG,
            acc == row_sum(row@, k as nat),
            -(k * MAX_MAG) <= acc <= k * MAX_MAG,
        decreases n - k,
    {
        acc = acc + (row[k] as i128);
        k = k + 1;
    }
    proof {
        lemma_row_sum_bound(row@, n as nat);
        lemma_tdiv_mag(acc as int, n as int, (n as int) * (MAX_MAG as int));
        assert(((n as int) * (MAX_MAG as int)) / (n as int) == MAX_MAG) by {
            vstd::arithmetic::div_mod::lemma_div_multiples_vanish(MAX_MAG as int, n as int);
        };
    }
    let mean: i64 = (acc / (n as i128)) as i64;

    let mut sq: i128 = 0;
    let mut k2: usize = 0;
    while k2 < n
        invariant
            k2 <= n,
            n == row.len(),
            n <= crate::tensor::MAX_DIM,
            -MAX_MAG <= mean <= MAX_MAG,
            forall|t: int| 0 <= t < row.len() ==> -MAX_MAG <= #[trigger] row@[t] <= MAX_MAG,
            sq == sq_dev_sum(row@, mean as int, k2 as nat),
            0 <= sq <= k2 * (4 * MAX_MAG * MAX_MAG),
        decreases n - k2,
    {
        let d: i64 = row[k2] - mean;
        proof {
            assert(0 <= (d as int) * (d as int) <= 4 * MAX_MAG * MAX_MAG) by (nonlinear_arith)
                requires
                    -2 * MAX_MAG <= d <= 2 * MAX_MAG,
            ;
            assert(k2 * (4 * MAX_MAG * MAX_MAG) + 4 * MAX_MAG * MAX_MAG == (k2 + 1) * (4 * MAX_MAG
                * MAX_MAG)) by (nonlinear_arith);
            assert((k2 + 1) * (4 * MAX_MAG * MAX_MAG) <= crate::tensor::MAX_DIM * (4 * MAX_MAG
                * MAX_MAG)) by (nonlinear_arith)
                requires
                    k2 + 1 <= crate::tensor::MAX_DIM,
            ;
        }
        sq = sq + (d as i128) * (d as i128);
        k2 = k2 + 1;
    }
    proof {
        lemma_sq_dev_bound(row@, mean as int, n as nat);
        assert(n * (4 * MAX_MAG * MAX_MAG) <= crate::tensor::MAX_DIM * (4 * MAX_MAG * MAX_MAG))
            by (nonlinear_arith)
            requires
                n <= crate::tensor::MAX_DIM,
        ;
        lemma_tdiv_bound(sq as int, n as int, crate::tensor::MAX_DIM * (4 * MAX_MAG * MAX_MAG));
        vstd::arithmetic::div_mod::lemma_div_pos_is_pos(sq as int, n as int);
        // The per-element average of the squared deviations is itself at most
        // the largest squared deviation.
        lemma_tdiv_mag(sq as int, n as int, (n as int) * (4 * MAX_MAG * MAX_MAG));
        assert(((n as int) * (4 * MAX_MAG * MAX_MAG)) / (n as int) == 4 * MAX_MAG * MAX_MAG) by {
            vstd::arithmetic::div_mod::lemma_div_multiples_vanish(
                4 * MAX_MAG * MAX_MAG,
                n as int,
            );
        };
    }
    let var_raw: i64 = (sq / (n as i128)) as i64;
    proof {
        vstd::arithmetic::div_mod::lemma_div_pos_is_pos(var_raw as int, FP as int);
        lemma_tdiv_mag(var_raw as int, FP as int, 4 * MAX_MAG * MAX_MAG);
    }
    let var_q: i64 = var_raw / FP;
    proof {
        let cap: int = 4 * (MAX_MAG as int) * (MAX_MAG as int) / (FP as int) + (FP as int);
        assert(((var_q as int) + (eps_q as int)) * (FP as int) <= cap * (FP as int))
            by (nonlinear_arith)
            requires
                0 <= (var_q as int) + (eps_q as int) <= cap,
        ;
    }
    let arg: u64 = ((var_q + eps_q) as u64) * (FP as u64);
    let denom: u64 = isqrt_u64(arg);
    proof {
        lemma_isqrt_val(arg as int, denom as int);
        assert(arg >= FP) by (nonlinear_arith)
            requires
                arg == ((var_q as int) + (eps_q as int)) * (FP as int),
                (var_q as int) + (eps_q as int) >= 1,
        ;
        if denom == 0 {
            assert((denom as int + 1) * (denom as int + 1) == 1) by (nonlinear_arith)
                requires
                    denom == 0,
            ;
        }
        if denom > 0x1_0000_0000 {
            assert(denom * denom > 0x1_0000_0000u64 * 0x1_0000_0000u64) by (nonlinear_arith)
                requires
                    denom > 0x1_0000_0000,
            ;
        }
    }
    (mean, denom)
}

/// Layer normalization with learned scale and shift, row by row.
pub fn layer_norm_rows(m: &Matrix, w: &Vec<i64>, b: &Vec<i64>, eps_q: i64) -> (r: Matrix)
    requires
        m.wf(),
        0 < m.cols,
        w.len() == m.cols,
        b.len() == m.cols,
        1 <= eps_q <= FP,
        forall|k: int| 0 <= k < w.len() ==> -MAX_MAG <= #[trigger] w@[k] <= MAX_MAG,
        forall|k: int| 0 <= k < b.len() ==> -MAX_MAG <= #[trigger] b@[k] <= MAX_MAG,
    ensures
        r.wf(),
        r.rows == m.rows,
        r.cols == m.cols,
        r.gm() == s_layer_norm(m.gm(), w@, b@, eps_q as int),
{
    let mut data: Vec<i64> = Vec::new();
    let mut i: usize = 0;
    while i < m.rows
        invariant
            i <= m.rows,
            m.wf(),
            0 < m.cols,
            w.len() == m.cols,
            b.len() == m.cols,
            1 <= eps_q <= FP,
            forall|t: int| 0 <= t < w.len() ==> -MAX_MAG <= #[trigger] w@[t] <= MAX_MAG,
            forall|t: int| 0 <= t < b.len() ==> -MAX_MAG <= #[trigger] b@[t] <= MAX_MAG,
            data.len() == i * m.cols,
            forall|t: int| 0 <= t < data.len() ==> -MAX_MAG <= #[trigger] data@[t] <= MAX_MAG,
            forall|i0: int, j0: int|
                0 <= i0 < i && 0 <= j0 < m.cols ==> #[trigger] data@[i0 * m.cols + j0]
                    == spec_ln_entry(m.gm().row(i0), w@, b@, eps_q as int, j0),
        decreases m.rows - i,
    {
        let row = m.row(i);
        proof {
            assert forall|t: int| 0 <= t < row.len() implies -MAX_MAG <= #[trigger] row@[t]
                <= MAX_MAG by {
                m.lemma_at_bounded(i as int, t);
            };
        }
        let (mean, denom) = ln_row_stats(&row, eps_q);
        let mut j: usize = 0;
        while j < m.cols
            invariant
                i < m.rows,
                j <= m.cols,
                m.wf(),
                0 < m.cols,
                w.len() == m.cols,
                b.len() == m.cols,
                1 <= eps_q <= FP,
                row.len() == m.cols,
                row@ == m.gm().row(i as int),
                forall|t: int| 0 <= t < row.len() ==> -MAX_MAG <= #[trigger] row@[t] <= MAX_MAG,
                mean == spec_ln_mean(row@),
                -MAX_MAG <= mean <= MAX_MAG,
                denom == spec_ln_denom(row@, eps_q as int),
                1 <= denom <= 0x1_0000_0000,
                forall|t: int| 0 <= t < w.len() ==> -MAX_MAG <= #[trigger] w@[t] <= MAX_MAG,
                forall|t: int| 0 <= t < b.len() ==> -MAX_MAG <= #[trigger] b@[t] <= MAX_MAG,
                data.len() == i * m.cols + j,
                forall|t: int| 0 <= t < data.len() ==> -MAX_MAG <= #[trigger] data@[t] <= MAX_MAG,
                forall|i0: int, j0: int|
                    0 <= i0 < i && 0 <= j0 < m.cols ==> #[trigger] data@[i0 * m.cols + j0]
                        == spec_ln_entry(m.gm().row(i0), w@, b@, eps_q as int, j0),
                forall|j0: int|
                    0 <= j0 < j ==> #[trigger] data@[i as int * m.cols + j0] == spec_ln_entry(
                        m.gm().row(i as int),
                        w@,
                        b@,
                        eps_q as int,
                        j0,
                    ),
            decreases m.cols - j,
        {
            let dev: i64 = row[j] - mean;
            proof {
                crate::tensor::lemma_abs_mul(dev as int, FP as int, 2 * MAX_MAG, FP as int);
            }
            let njn: i64 = dev * FP;
            proof {
                lemma_tdiv_bound(njn as int, denom as int, 2 * (MAX_MAG as int) * (FP as int));
            }
            let nj: i64 = njn / (denom as i64);
            proof {
                crate::tensor::lemma_abs_mul(
                    nj as int,
                    w@[j as int] as int,
                    2 * (MAX_MAG as int) * (FP as int),
                    MAX_MAG as int,
                );
                lemma_tdiv_bound(
                    (nj as int) * (w@[j as int] as int),
                    FP as int,
                    2 * (MAX_MAG as int) * (FP as int) * (MAX_MAG as int),
                );
            }
            let num: i128 = (nj as i128) * (w[j] as i128);
            let q: i128 = num / (FP as i128);
            let y: i128 = q + (b[j] as i128);
            let v: i64 = if y < -(MAX_MAG as i128) {
                -MAX_MAG
            } else if y > MAX_MAG as i128 {
                MAX_MAG
            } else {
                y as i64
            };
            assert(v == spec_ln_entry(m.gm().row(i as int), w@, b@, eps_q as int, j as int));
            data.push(v);
            proof {
                lemma_rm_index(m.rows as int, m.cols as int, i as int, j as int);
                assert forall|i0: int, j0: int| 0 <= i0 < i && 0 <= j0 < m.cols implies #[trigger]
                    data@[i0 * m.cols + j0] == spec_ln_entry(
                    m.gm().row(i0),
                    w@,
                    b@,
                    eps_q as int,
                    j0,
                ) by {
                    lemma_rm_index(i as int, m.cols as int, i0, j0);
                };
            }
            j = j + 1;
        }
        i = i + 1;
        proof {
            assert((i - 1) * m.cols + m.cols == i * m.cols) by (nonlinear_arith);
        }
    }
    let r = Matrix { data, rows: m.rows, cols: m.cols };
    proof {
        assert(r.rows * r.cols == r.data.len()) by (nonlinear_arith)
            requires
                r.data.len() == r.rows * r.cols,
        ;
        assert forall|i0: int, j0: int| 0 <= i0 < r.rows && 0 <= j0 < r.cols implies #[trigger] r.at(
            i0,
            j0,
        ) == spec_ln_entry(m.gm().row(i0), w@, b@, eps_q as int, j0) as i64 by {
            lemma_rm_index(r.rows as int, r.cols as int, i0, j0);
        };
        lemma_is_flat(
            r,
            |i0: int, j0: int| spec_ln_entry(m.gm().row(i0), w@, b@, eps_q as int, j0) as i64,
        );
    }
    r
}

/// One softmax probability of a row, in Q16.16: weight over total.
pub open spec fn spec_softmax_at(s: Seq<i64>, j: int) -> int {
    (spec_weight(s, FP as int, j) * FP) / sum_weights(s, FP as int, s.len())
}

/// Row-wise softmax at the ghost level.
pub open spec fn s_softmax_rows(a: GMat) -> GMat {
    flat(a.rows, a.cols, |i: int, j: int| spec_softmax_at(a.row(i), j) as i64)
}

/// Row-wise softmax with max-subtraction: each row becomes Q16.16
/// probabilities, validated non-negative and at most one by construction.
pub fn softmax_rows(m: &Matrix) -> (r: Matrix)
    requires
        m.wf(),
        0 < m.cols,
    ensures
        r.wf(),
        r.rows == m.rows,
        r.cols == m.cols,
        r.gm() == s_softmax_rows(m.gm()),
{
    let mut data: Vec<i64> = Vec::new();
    let mut i: usize = 0;
    while i < m.rows
        invariant
            i <= m.rows,
            m.wf(),
            0 < m.cols,
            data.len() == i * m.cols,
            forall|t: int| 0 <= t < data.len() ==> -MAX_MAG <= #[trigger] data@[t] <= MAX_MAG,
            forall|i0: int, j0: int|
                0 <= i0 < i && 0 <= j0 < m.cols ==> #[trigger] data@[i0 * m.cols + j0]
                    == spec_softmax_at(m.gm().row(i0), j0),
        decreases m.rows - i,
    {
        let row = m.row(i);
        proof {
            assert forall|t: int| 0 <= t < row.len() implies -MAX_MAG <= #[trigger] row@[t]
                <= MAX_MAG by {
                m.lemma_at_bounded(i as int, t);
            };
        }
        let (weights, total) = softmax_weights(&row, FP);
        let mut j: usize = 0;
        while j < m.cols
            invariant
                i < m.rows,
                j <= m.cols,
                m.wf(),
                0 < m.cols,
                row.len() == m.cols,
                row@ == m.gm().row(i as int),
                forall|t: int| 0 <= t < row.len() ==> -MAX_MAG <= #[trigger] row@[t] <= MAX_MAG,
                weights.len() == m.cols,
                forall|t: int| 0 <= t < m.cols ==> #[trigger] weights@[t] == spec_weight(
                    row@,
                    FP as int,
                    t,
                ),
                total == sum_weights(row@, FP as int, m.cols as nat),
                FP <= total,
                data.len() == i * m.cols + j,
                forall|t: int| 0 <= t < data.len() ==> -MAX_MAG <= #[trigger] data@[t] <= MAX_MAG,
                forall|i0: int, j0: int|
                    0 <= i0 < i && 0 <= j0 < m.cols ==> #[trigger] data@[i0 * m.cols + j0]
                        == spec_softmax_at(m.gm().row(i0), j0),
                forall|j0: int|
                    0 <= j0 < j ==> #[trigger] data@[i as int * m.cols + j0] == spec_softmax_at(
                        m.gm().row(i as int),
                        j0,
                    ),
            decreases m.cols - j,
        {
            let wj: u64 = weights[j];
            proof {
                lemma_exp_q_bounds_weight(row@, j as int);
                lemma_sum_ge_term(row@, FP as int, j as int, m.cols as nat);
                vstd::arithmetic::div_mod::lemma_div_pos_is_pos(
                    (wj as int) * (FP as int),
                    total as int,
                );
                vstd::arithmetic::div_mod::lemma_div_is_ordered(
                    (wj as int) * (FP as int),
                    (total as int) * (FP as int),
                    total as int,
                );
                assert(((total as int) * (FP as int)) / (total as int) == FP) by {
                    vstd::arithmetic::div_mod::lemma_div_multiples_vanish(
                        FP as int,
                        total as int,
                    );
                };
                assert((wj as int) * (FP as int) <= (total as int) * (FP as int))
                    by (nonlinear_arith)
                    requires
                        wj <= total,
                ;
            }
            let p: u64 = (wj * (FP as u64)) / total;
            let v: i64 = p as i64;
            assert(v == spec_softmax_at(m.gm().row(i as int), j as int));
            data.push(v);
            proof {
                lemma_rm_index(m.rows as int, m.cols as int, i as int, j as int);
                assert forall|i0: int, j0: int| 0 <= i0 < i && 0 <= j0 < m.cols implies #[trigger]
                    data@[i0 * m.cols + j0] == spec_softmax_at(m.gm().row(i0), j0) by {
                    lemma_rm_index(i as int, m.cols as int, i0, j0);
                };
            }
            j = j + 1;
        }
        i = i + 1;
        proof {
            assert((i - 1) * m.cols + m.cols == i * m.cols) by (nonlinear_arith);
        }
    }
    let r = Matrix { data, rows: m.rows, cols: m.cols };
    proof {
        assert(r.rows * r.cols == r.data.len()) by (nonlinear_arith)
            requires
                r.data.len() == r.rows * r.cols,
        ;
        assert forall|i0: int, j0: int| 0 <= i0 < r.rows && 0 <= j0 < r.cols implies #[trigger] r.at(
            i0,
            j0,
        ) == spec_softmax_at(m.gm().row(i0), j0) as i64 by {
            lemma_rm_index(r.rows as int, r.cols as int, i0, j0);
        };
        lemma_is_flat(r, |i0: int, j0: int| spec_softmax_at(m.gm().row(i0), j0) as i64);
    }
    r
}

/// A softmax weight of a bounded row is within `[0, FP]`.
proof fn lemma_exp_q_bounds_weight(s: Seq<i64>, j: int)
    requires
        0 <= j < s.len(),
        forall|k: int| 0 <= k < s.len() ==> -MAX_MAG <= #[trigger] s[k] <= MAX_MAG,
    ensures
        0 <= spec_weight(s, FP as int, j) <= FP,
{
    crate::sampler::lemma_weight_in_range(s, FP as int, j);
}

/// A linear projection: a weight matrix and a bias vector.
pub struct Linear {
    pub w: Matrix,
    pub b: Vec<i64>,
}

impl Linear {
    /// Well-formed for a projection from `n_in` to `n_out` features. The
    /// weight is stored `[n_out, n_in]`, as the containers lay it out, and
    /// applied transposed.
    pub open spec fn wf(self, n_in: int, n_out: int) -> bool {
        &&& self.w.wf()
        &&& self.w.rows == n_out
        &&& self.w.cols == n_in
        &&& self.b.len() == n_out
        &&& forall|k: int| 0 <= k < self.b.len() ==> -MAX_MAG <= #[trigger] self.b@[k] <= MAX_MAG
    }

    /// The projection at the ghost level: `x * transpose(w) + b`.
    pub open spec fn s_apply(self, x: GMat) -> GMat {
        crate::tensor::s_add_bias(crate::tensor::s_matmul_t(x, self.w.gm()), self.b@)
    }

    /// Apply the projection: `x * transpose(w) + b`, row-wise.
    pub fn forward(&self, x: &Matrix) -> (r: Matrix)
        requires
            x.wf(),
            self.wf(self.w.cols as int, self.w.rows as int),
            x.cols == self.w.cols,
        ensures
            r.wf(),
            r.rows == x.rows,
            r.cols == self.w.rows,
            r.gm() == self.s_apply(x.gm()),
    {
        let prod = crate::tensor::matmul_t(x, &self.w);
        crate::tensor::add_row_bias(&prod, &self.b)
    }
}

/// A layer-normalization block: learned scale and shift, and the stabilizing
/// epsilon (at least one fixed-point unit, so the divisor never degenerates).
pub struct LayerNorm {
    pub weight: Vec<i64>,
    pub bias: Vec<i64>,
    pub eps_q: i64,
}

impl LayerNorm {
    /// Well-formed over rows of width `n`.
    pub open spec fn wf(self, n: int) -> bool {
        &&& self.weight.len() == n
        &&& self.bias.len() == n
        &&& 1 <= self.eps_q <= FP
        &&& forall|k: int|
            0 <= k < self.weight.len() ==> -MAX_MAG <= #[trigger] self.weight@[k] <= MAX_MAG
        &&& forall|k: int|
            0 <= k < self.bias.len() ==> -MAX_MAG <= #[trigger] self.bias@[k] <= MAX_MAG
    }

    /// The normalization at the ghost level.
    pub open spec fn s_apply(self, x: GMat) -> GMat {
        s_layer_norm(x, self.weight@, self.bias@, self.eps_q as int)
    }

    /// Normalize each row to zero mean and (stabilized) unit variance, then
    /// rescale and shift.
    pub fn forward(&self, x: &Matrix) -> (r: Matrix)
        requires
            x.wf(),
            0 < x.cols,
            self.wf(x.cols as int),
        ensures
            r.wf(),
            r.rows == x.rows,
            r.cols == x.cols,
            r.gm() == self.s_apply(x.gm()),
    {
        layer_norm_rows(x, &self.weight, &self.bias, self.eps_q)
    }
}

/// Multi-head self-attention: four projections and the head geometry.
pub struct MultiHeadAttention {
    pub query: Linear,
    pub key: Linear,
    pub value: Linear,
    pub out: Linear,
    pub num_heads: usize,
    pub head_dim: usize,
}

/// One attention head at the ghost level: sliced queries, keys and values;
/// scaled scores (optionally additively masked); row softmax; weighted sum.
pub open spec fn s_head(
    q: GMat,
    k: GMat,
    v: GMat,
    mask: Option<GMat>,
    denom: int,
    d: int,
    h: int,
) -> GMat {
    let qh = crate::tensor::s_slice(q, h * d, d);
    let kh = crate::tensor::s_slice(k, h * d, d);
    let vh = crate::tensor::s_slice(v, h * d, d);
    let scores = crate::tensor::s_scale_div(crate::tensor::s_matmul_t(qh, kh), denom);
    let masked = match mask {
        Some(m) => crate::tensor::s_add(scores, m),
        None => scores,
    };
    crate::tensor::s_matmul(s_softmax_rows(masked), vh)
}

/// All heads, concatenated along the feature dimension.
pub open spec fn s_heads_concat(
    q: GMat,
    k: GMat,
    v: GMat,
    mask: Option<GMat>,
    denom: int,
    d: int,
    nh: int,
) -> GMat {
    flat(
        q.rows,
        nh * d,
        |i: int, j: int| s_head(q, k, v, mask, denom, d, j / d).at(i, j % d) as i64,
    )
}

impl MultiHeadAttention {
    /// Well-formed for hidden width `n`: all four projections are square over
    /// `n`, and the heads tile it exactly.
    pub open spec fn wf(self, n: int) -> bool {
        &&& self.query.wf(n, n)
        &&& self.key.wf(n, n)
        &&& self.value.wf(n, n)
        &&& self.out.wf(n, n)
        &&& self.query.w.rows == n
        &&& 1 <= self.num_heads
        &&& 1 <= self.head_dim
        &&& self.num_heads * self.head_dim == n
        &&& n <= crate::tensor::MAX_DIM
    }

    /// The scaling divisor: `sqrt(head_dim)` in Q16.16.
    pub open spec fn s_denom(self) -> int {
        spec_isqrt(self.head_dim * (FP as int) * (FP as int))
    }

    /// The whole attention block at the ghost level.
    pub open spec fn s_apply(self, x: GMat, mask: Option<GMat>) -> GMat {
        let q = self.query.s_apply(x);
        let k = self.key.s_apply(x);
        let v = self.value.s_apply(x);
        let ctx = s_heads_concat(
            q,
            k,
            v,
            mask,
            self.s_denom(),
            self.head_dim as int,
            self.num_heads as int,
        );
        self.out.s_apply(ctx)
    }

    /// Multi-head self-attention: `softmax(Q K^T / sqrt(d)) V`, per head,
    /// concatenated and projected. The score scaling and row softmax use the
    /// stabilized fixed-point forms, so the probabilities are non-negative
    /// and bounded whatever the inputs.
    pub fn forward(&self, x: &Matrix, mask: Option<&Matrix>) -> (r: Matrix)
        requires
            x.wf(),
            0 < x.rows,
            x.cols == self.query.w.rows,
            self.wf(x.cols as int),
            match mask {
                Some(m) => m.wf() && m.rows == x.rows && m.cols == x.rows,
                None => true,
            },
        ensures
            r.wf(),
            r.rows == x.rows,
            r.cols == x.cols,
            r.gm() == self.s_apply(
                x.gm(),
                match mask {
                    Some(m) => Some(m.gm()),
                    None => None,
                },
            ),
    {
        let ghost gmask: Option<GMat> = match mask {
            Some(m) => Some(m.gm()),
            None => None,
        };
        let q = self.query.forward(x);
        let k = self.key.forward(x);
        let v = self.value.forward(x);

        let d = self.head_dim;
        let nh = self.num_heads;
        proof {
            assert(self.head_dim <= crate::tensor::MAX_DIM) by (nonlinear_arith)
                requires
                    1 <= self.num_heads,
                    1 <= self.head_dim,
                    self.num_heads * self.head_dim <= crate::tensor::MAX_DIM,
            ;
            assert((self.head_dim as int) * (FP as int) * (FP as int) <= 0x8000_0000_0000int
                * (FP as int)) by (nonlinear_arith)
                requires
                    1 <= self.head_dim <= crate::tensor::MAX_DIM,
            ;
        }
        let denom_arg: u64 = (d as u64) * (FP as u64) * (FP as u64);
        let denom_u: u64 = isqrt_u64(denom_arg);
        proof {
            lemma_isqrt_val(denom_arg as int, denom_u as int);
            assert(denom_arg >= 1) by (nonlinear_arith)
                requires
                    denom_arg == (d as int) * (FP as int) * (FP as int),
                    d >= 1,
            ;
            if denom_u == 0 {
                assert((denom_u as int + 1) * (denom_u as int + 1) == 1) by (nonlinear_arith)
                    requires
                        denom_u == 0,
                ;
            }
            if denom_u > 0x1_0000_0000 {
                assert((denom_u as int) * (denom_u as int) > 0x1_0000_0000int * 0x1_0000_0000int)
                    by (nonlinear_arith)
                    requires
                        denom_u as int > 0x1_0000_0000,
                ;
                assert(denom_arg as int <= 0x1_0000_0000int * 0x1_0000_0000int);
            }
        }
        let denom: i64 = denom_u as i64;

        let mut ctx = Matrix::zeros(x.rows, d * nh);
        proof {
            assert(d * nh == nh * d) by (nonlinear_arith);
        }
        let mut h: usize = 0;
        while h < nh
            invariant
                h <= nh,
                x.wf(),
                0 < x.rows,
                self.wf(x.cols as int),
                d == self.head_dim,
                nh == self.num_heads,
                q.wf(),
                q.rows == x.rows,
                q.cols == x.cols,
                q.gm() == self.query.s_apply(x.gm()),
                k.wf(),
                k.rows == x.rows,
                k.cols == x.cols,
                k.gm() == self.key.s_apply(x.gm()),
                v.wf(),
                v.rows == x.rows,
                v.cols == x.cols,
                v.gm() == self.value.s_apply(x.gm()),
                match mask {
                    Some(m) => m.wf() && m.rows == x.rows && m.cols == x.rows,
                    None => true,
                },
                gmask == match mask {
                    Some(m) => Some(m.gm()),
                    None => None::<GMat>,
                },
                denom == self.s_denom(),
                1 <= denom <= 0x1_0000_0000,
                ctx.wf(),
                ctx.rows == x.rows,
                ctx.cols == x.cols,
                forall|h0: int, i0: int, j0: int|
                    0 <= h0 < h && 0 <= i0 < x.rows && 0 <= j0 < d ==> #[trigger] ctx.at(
                        i0,
                        h0 * d + j0,
                    ) == s_head(q.gm(), k.gm(), v.gm(), gmask, denom as int, d as int, h0).at(
                        i0,
                        j0,
                    ),
            decreases nh - h,
        {
            proof {
                assert(h * d + d <= nh * d && 0 <= h * d) by (nonlinear_arith)
                    requires
                        0 <= h < nh,
                        0 < d,
                ;
            }
            let qh = crate::tensor::slice_cols(&q, h * d, d);
            let kh = crate::tensor::slice_cols(&k, h * d, d);
            let vh = crate::tensor::slice_cols(&v, h * d, d);
            let scores_raw = crate::tensor::matmul_t(&qh, &kh);
            let scores = crate::tensor::scale_div(&scores_raw, denom);
            let masked = match mask {
                Some(m) => {
                    let s2 = crate::tensor::add_clamped(&scores, m);
                    proof {
                        crate::tensor::lemma_add_is_flat(scores, *m, s2);
                    }
                    s2
                },
                None => scores,
            };
            let probs = softmax_rows(&masked);
            let head_out = crate::tensor::matmul(&probs, &vh);
            assert(head_out.gm() == s_head(
                q.gm(),
                k.gm(),
                v.gm(),
                gmask,
                denom as int,
                d as int,
                h as int,
            ));
            let ghost ctx_old: Matrix = ctx;
            crate::tensor::paste_cols(&mut ctx, &head_out, h * d);
            proof {
                assert forall|h0: int, i0: int, j0: int|
                    0 <= h0 < h + 1 && 0 <= i0 < x.rows && 0 <= j0 < d implies #[trigger] ctx.at(
                    i0,
                    h0 * d + j0,
                ) == s_head(q.gm(), k.gm(), v.gm(), gmask, denom as int, d as int, h0).at(
                    i0,
                    j0,
                ) by {
                    if h0 < h {
                        assert(0 <= h0 * d + j0 && h0 * d + j0 < h * d) by (nonlinear_arith)
                            requires
                                0 <= h0,
                                h0 + 1 <= h,
                                0 <= j0 < d,
                        ;
                        assert(ctx.at(i0, h0 * d + j0) == ctx_old.at(i0, h0 * d + j0));
                    } else {
                        assert(ctx.at(i0, h * d + j0) == head_out.at(i0, j0));
                    }
                };
            }
            h = h + 1;
        }
        proof {
            let f = |i0: int, j0: int|
                s_head(q.gm(), k.gm(), v.gm(), gmask, denom as int, d as int, j0 / (d as int)).at(
                    i0,
                    j0 % (d as int),
                ) as i64;
            assert forall|i0: int, j0: int| 0 <= i0 < ctx.rows && 0 <= j0 < ctx.cols implies
                #[trigger] ctx.gm().at(i0, j0) == f(i0, j0) by {
                let h0 = j0 / (d as int);
                let jj = j0 % (d as int);
                vstd::arithmetic::div_mod::lemma_fundamental_div_mod(j0, d as int);
                vstd::arithmetic::div_mod::lemma_mod_bound(j0, d as int);
                vstd::arithmetic::div_mod::lemma_div_pos_is_pos(j0, d as int);
                assert(h0 < nh) by (nonlinear_arith)
                    requires
                        j0 == (d as int) * h0 + jj,
                        0 <= jj < d,
                        0 <= h0,
                        j0 < nh * d,
                ;
                assert(ctx.at(i0, h0 * d + jj) == s_head(
                    q.gm(),
                    k.gm(),
                    v.gm(),
                    gmask,
                    denom as int,
                    d as int,
                    h0,
                ).at(i0, jj));
            };
            crate::tensor::lemma_is_flat(ctx, f);
            assert(ctx.gm() == s_heads_concat(
                q.gm(),
                k.gm(),
                v.gm(),
                gmask,
                denom as int,
                d as int,
                nh as int,
            ));
        }
        self.out.forward(&ctx)
    }
}

/// The position-wise feed-forward block: expand, GELU, project back.
pub struct PositionWiseFeedForward {
    pub fc1: Linear,
    pub fc2: Linear,
}

impl PositionWiseFeedForward {
    /// Well-formed for hidden width `n` expanding to `inter` features.
    pub open spec fn wf(self, n: int, inter: int) -> bool {
        &&& self.fc1.wf(n, inter)
        &&& self.fc2.wf(inter, n)
        &&& 0 < inter
    }

    /// The feed-forward block at the ghost level.
    pub open spec fn s_apply(self, x: GMat) -> GMat {
        self.fc2.s_apply(s_gelu(self.fc1.s_apply(x)))
    }

    /// `FFN(x) = GELU(x W1 + b1) W2 + b2`.
    pub fn forward(&self, x: &Matrix) -> (r: Matrix)
        requires
            x.wf(),
            self.wf(x.cols as int, self.fc1.w.rows as int),
        ensures
            r.wf(),
            r.rows == x.rows,
            r.cols == x.cols,
            r.gm() == self.s_apply(x.gm()),
    {
        let hidden = self.fc1.forward(x);
        let act = gelu_rows(&hidden);
        self.fc2.forward(&act)
    }
}

/// One transformer layer: attention and feed-forward, each with a residual
/// connection and a layer normalization.
pub struct TransformerLayer {
    pub attention: MultiHeadAttention,
    pub feed_forward: PositionWiseFeedForward,
    pub norm1: LayerNorm,
    pub norm2: LayerNorm,
}

impl TransformerLayer {
    /// Well-formed for hidden width `n`.
    pub open spec fn wf(self, n: int) -> bool {
        &&& self.attention.wf(n)
        &&& self.attention.query.w.rows == n
        &&& self.feed_forward.wf(n, self.feed_forward.fc1.w.rows as int)
        &&& self.norm1.wf(n)
        &&& self.norm2.wf(n)
        &&& 0 < n
    }

    /// One layer at the ghost level:
    /// `norm2(y + FFN(y))` where `y = norm1(x + Attention(x))`.
    pub open spec fn s_apply(self, x: GMat, mask: Option<GMat>) -> GMat {
        let a = self.attention.s_apply(x, mask);
        let y = self.norm1.s_apply(crate::tensor::s_add(x, a));
        let f = self.feed_forward.s_apply(y);
        self.norm2.s_apply(crate::tensor::s_add(y, f))
    }

    /// Self-attention, residual, norm; feed-forward, residual, norm.
    pub fn forward(&self, x: &Matrix, mask: Option<&Matrix>) -> (r: Matrix)
        requires
            x.wf(),
            0 < x.rows,
            self.wf(x.cols as int),
            match mask {
                Some(m) => m.wf() && m.rows == x.rows && m.cols == x.rows,
                None => true,
            },
        ensures
            r.wf(),
            r.rows == x.rows,
            r.cols == x.cols,
            r.gm() == self.s_apply(
                x.gm(),
                match mask {
                    Some(m) => Some(m.gm()),
                    None => None,
                },
            ),
    {
        let a = self.attention.forward(x, mask);
        let xa = crate::tensor::add_clamped(x, &a);
        proof {
            crate::tensor::lemma_add_is_flat(*x, a, xa);
        }
        let y = self.norm1.forward(&xa);
        let f = self.feed_forward.forward(&y);
        let yf = crate::tensor::add_clamped(&y, &f);
        proof {
            crate::tensor::lemma_add_is_flat(y, f, yf);
        }
        self.norm2.forward(&yf)
    }
}

/// A typed failure of the transformer stack, naming the stage.
#[derive(Debug)]
pub enum TransformerError {
    InvalidInput(String),
    NumericalInstability(String),
    ShapeMismatch(String),
    InvalidTensorValues(String),
    LayerError(String),
}

impl TransformerError {
    /// The stage-naming text carried by the failure.
    pub fn message(&self) -> (r: &String)
        ensures
            match self {
                TransformerError::InvalidInput(m) => r == m,
                TransformerError::NumericalInstability(m) => r == m,
                TransformerError::ShapeMismatch(m) => r == m,
                TransformerError::InvalidTensorValues(m) => r == m,
                TransformerError::LayerError(m) => r == m,
            },
    {
        match self {
            TransformerError::InvalidInput(m) => m,
            TransformerError::NumericalInstability(m) => m,
            TransformerError::ShapeMismatch(m) => m,
            TransformerError::InvalidTensorValues(m) => m,
            TransformerError::LayerError(m) => m,
        }
    }
}

/// The transformer stack: an embedding table, the layers, and the final
/// normalization. The output projection reuses the embedding table (tied
/// weights), giving logits over the vocabulary.
pub struct YiCoderTransformer {
    pub embeddings: Matrix,
    pub layers: Vec<TransformerLayer>,
    pub norm: LayerNorm,
}

impl YiCoderTransformer {
    /// The hidden width.
    pub open spec fn hidden(self) -> int {
        self.embeddings.cols as int
    }

    /// The vocabulary size.
    pub open spec fn vocab(self) -> int {
        self.embeddings.rows as int
    }

    /// Well-formed: a consistent embedding table, every layer and the final
    /// norm sized to the hidden width.
    pub open spec fn wf(self) -> bool {
        &&& self.embeddings.wf()
        &&& 0 < self.hidden()
        &&& 0 < self.vocab()
        &&& self.norm.wf(self.hidden())
        &&& forall|i: int|
            0 <= i < self.layers.len() ==> (#[trigger] self.layers@[i]).wf(self.hidden())
    }

    /// The ids a forward pass accepts: a non-empty sequence, no longer than
    /// the dimension cap, every id inside the vocabulary.
    pub open spec fn valid_ids(self, ids: Seq<u32>) -> bool {
        &&& 1 <= ids.len() <= crate::tensor::MAX_DIM
        &&& forall|k: int| 0 <= k < ids.len() ==> (#[trigger] ids[k] as int) < self.vocab()
    }

    /// The hidden state after the first `n` layers.
    pub open spec fn s_layers(self, x: GMat, n: nat) -> GMat
        decreases n,
    {
        if n == 0 {
            x
        } else {
            self.layers@[n - 1].s_apply(self.s_layers(x, (n - 1) as nat), None)
        }
    }

    /// The whole forward pass as a function of the weights and the ids:
    /// embed, apply every layer, normalize, project onto the vocabulary.
    /// Being a function, it makes the determinism of the forward pass a
    /// stated, checked property: identical weights and ids give identical
    /// logits.
    pub open spec fn s_forward(self, ids: Seq<u32>) -> GMat {
        let x0 = crate::tensor::s_embed(self.embeddings.gm(), ids);
        let h = self.s_layers(x0, self.layers.len() as nat);
        let hn = self.norm.s_apply(h);
        crate::tensor::s_matmul_t(hn, self.embeddings.gm())
    }

    /// The forward pass: logits of shape `[seq_len, vocab]`, or a typed
    /// error naming the invalid input. Exactly the out-of-range inputs are
    /// rejected, and a successful result is exactly `s_forward`: bounded
    /// (finite) in every entry, even over all-zero fallback weights.
    pub fn forward(&self, input_ids: &Vec<u32>) -> (r: Result<Matrix, TransformerError>)
        requires
            self.wf(),
        ensures
            r is Ok <==> self.valid_ids(input_ids@),
            match r {
                Ok(m) => {
                    &&& m.wf()
                    &&& m.rows == input_ids.len()
                    &&& m.cols == self.vocab()
                    &&& m.gm() == self.s_forward(input_ids@)
                },
                Err(e) => e is InvalidInput,
            },
    {
        if input_ids.len() == 0 || input_ids.len() > crate::tensor::MAX_DIM {
            return Err(TransformerError::InvalidInput("input id sequence length".to_owned()));
        }
        let vocab = self.embeddings.rows;
        let mut k: usize = 0;
        while k < input_ids.len()
            invariant
                k <= input_ids.len(),
                vocab == self.embeddings.rows,
                forall|t: int| 0 <= t < k ==> (#[trigger] input_ids@[t] as int) < vocab,
            decreases input_ids.len() - k,
        {
            if input_ids[k] as usize >= vocab {
                return Err(
                    TransformerError::InvalidInput("input id outside the vocabulary".to_owned()),
                );
            }
            k = k + 1;
        }

        let x0 = crate::tensor::embed_rows(&self.embeddings, input_ids);
        let mut h = x0;
        let ghost gx0: GMat = crate::tensor::s_embed(self.embeddings.gm(), input_ids@);
        let mut i: usize = 0;
        while i < self.layers.len()
            invariant
                i <= self.layers.len(),
                self.wf(),
                1 <= input_ids.len() <= crate::tensor::MAX_DIM,
                h.wf(),
                h.rows == input_ids.len(),
                h.cols == self.hidden(),
                gx0 == crate::tensor::s_embed(self.embeddings.gm(), input_ids@),
                h.gm() == self.s_layers(gx0, i as nat),
            decreases self.layers.len() - i,
        {
            h = self.layers[i].forward(&h, None);
            i = i + 1;
        }
        let hn = self.norm.forward(&h);
        let logits = crate::tensor::matmul_t(&hn, &self.embeddings);
        Ok(logits)
    }
}

/// Architecture hyperparameters and generation defaults of one model, fixed
/// point where the original values are fractional.
#[derive(Clone, Copy, PartialEq, Eq, Structural, Debug)]
pub struct ModelConfig {
    pub bos_token_id: usize,
    pub eos_token_id: usize,
    pub pad_token_id: usize,
    pub temperature_q: i64,
    pub top_p_q: i64,
    pub max_tokens: usize,
    pub hidden_size: usize,
    pub num_attention_heads: usize,
    pub intermediate_size: usize,
    pub num_layers: usize,
    pub layer_norm_eps_q: i64,
    pub vocab_size: usize,
}

impl ModelConfig {
    /// The hyperparameters a stack can be built from: positive dimensions
    /// within the engine's caps, heads tiling the hidden width exactly, and
    /// a usable stabilizing epsilon.
    pub open spec fn buildable(self) -> bool {
        &&& 1 <= self.hidden_size <= crate::tensor::MAX_DIM
        &&& 1 <= self.vocab_size <= crate::tensor::MAX_DIM
        &&& 1 <= self.intermediate_size <= crate::tensor::MAX_DIM
        &&& 1 <= self.num_attention_heads <= self.hidden_size
        &&& self.hidden_size % self.num_attention_heads == 0
        &&& 1 <= self.layer_norm_eps_q <= FP
    }
}

/// A projection matches the store: its weight (laid out `[n_out, n_in]`) and
/// bias come from the named parameters, missing ones falling back to zeros.
pub open spec fn linear_matches(
    l: Linear,
    w: crate::weights::WeightStore,
    wname: Seq<char>,
    bname: Seq<char>,
    n_in: int,
    n_out: int,
) -> bool {
    &&& l.w.gm() == w.s_provide(wname, n_out, n_in).gm
    &&& l.b@ == w.s_provide(bname, 1, n_out).gm.row(0)
}

/// A normalization block matches the store.
pub open spec fn norm_matches(
    ln: LayerNorm,
    w: crate::weights::WeightStore,
    wname: Seq<char>,
    bname: Seq<char>,
    n: int,
    eps: int,
) -> bool {
    &&& ln.weight@ == w.s_provide(wname, 1, n).gm.row(0)
    &&& ln.bias@ == w.s_provide(bname, 1, n).gm.row(0)
    &&& ln.eps_q == eps
}

/// Layer `i` matches the store under its `layer_<i>` parameter names.
pub open spec fn layer_matches(
    l: TransformerLayer,
    w: crate::weights::WeightStore,
    i: nat,
    c: ModelConfig,
) -> bool {
    let n = c.hidden_size as int;
    &&& linear_matches(
        l.attention.query,
        w,
        crate::loader::spec_layer_name(i, ".attention.query.weight"@),
        crate::loader::spec_layer_name(i, ".attention.query.bias"@),
        n,
        n,
    )
    &&& linear_matches(
        l.attention.key,
        w,
        crate::loader::spec_layer_name(i, ".attention.key.weight"@),
        crate::loader::spec_layer_name(i, ".attention.key.bias"@),
        n,
        n,
    )
    &&& linear_matches(
        l.attention.value,
        w,
        crate::loader::spec_layer_name(i, ".attention.value.weight"@),
        crate::loader::spec_layer_name(i, ".attention.value.bias"@),
        n,
        n,
    )
    &&& linear_matches(
        l.attention.out,
        w,
        crate::loader::spec_layer_name(i, ".attention.out.weight"@),
        crate::loader::spec_layer_name(i, ".attention.out.bias"@),
        n,
        n,
    )
    &&& l.attention.num_heads == c.num_attention_heads
    &&& l.attention.head_dim == c.hidden_size / c.num_attention_heads
    &&& linear_matches(
        l.feed_forward.fc1,
        w,
        crate::loader::spec_layer_name(i, ".ffn.fc1.weight"@),
        crate::loader::spec_layer_name(i, ".ffn.fc1.bias"@),
        n,
        c.intermediate_size as int,
    )
    &&& linear_matches(
        l.feed_forward.fc2,
        w,
        crate::loader::spec_layer_name(i, ".ffn.fc2.weight"@),
        crate::loader::spec_layer_name(i, ".ffn.fc2.bias"@),
        c.intermediate_size as int,
        n,
    )
    &&& norm_matches(
        l.norm1,
        w,
        crate::loader::spec_layer_name(i, ".input_layernorm.weight"@),
        crate::loader::spec_layer_name(i, ".input_layernorm.bias"@),
        n,
        c.layer_norm_eps_q as int,
    )
    &&& norm_matches(
        l.norm2,
        w,
        crate::loader::spec_layer_name(i, ".post_attention_layernorm.weight"@),
        crate::loader::spec_layer_name(i, ".post_attention_layernorm.bias"@),
        n,
        c.layer_norm_eps_q as int,
    )
}

/// The whole stack matches the store.
pub open spec fn stack_matches(
    t: YiCoderTransformer,
    w: crate::weights::WeightStore,
    c: ModelConfig,
) -> bool {
    &&& t.embeddings.gm() == w.s_provide(
        "model.embeddings.word_embeddings"@,
        c.vocab_size as int,
        c.hidden_size as int,
    ).gm
    &&& norm_matches(
        t.norm,
        w,
        "model.norm.weight"@,
        "model.norm.bias"@,
        c.hidden_size as int,
        c.layer_norm_eps_q as int,
    )
    &&& t.layers@.len() == c.num_layers
    &&& forall|i: int| 0 <= i < c.num_layers ==> layer_matches(#[trigger] t.layers@[i], w, i as nat, c)
}

/// Extract a length-`n` parameter vector provided under `name` (row of a
/// `1 x n` matrix).
fn provide_vector(w: &crate::weights::WeightStore, name: &String, n: usize) -> (r: Vec<i64>)
    requires
        w.wf(),
        n <= crate::tensor::MAX_DIM,
    ensures
        r@ == w.s_provide(name@, 1, n as int).gm.row(0),
        r.len() == n,
        forall|k: int| 0 <= k < r.len() ==> -MAX_MAG <= #[trigger] r@[k] <= MAX_MAG,
{
    let m = w.provide(name, 1, n);
    let r = m.row(0);
    proof {
        assert forall|k: int| 0 <= k < r.len() implies -MAX_MAG <= #[trigger] r@[k]
            <= MAX_MAG by {
            m.lemma_at_bounded(0, k);
        };
        assert(m.gm().row(0) == w.s_provide(name@, 1, n as int).gm.row(0));
    }
    r
}

/// Build one projection from the store.
fn build_linear(
    w: &crate::weights::WeightStore,
    wname: &String,
    bname: &String,
    n_in: usize,
    n_out: usize,
) -> (r: Linear)
    requires
        w.wf(),
        n_in <= crate::tensor::MAX_DIM,
        n_out <= crate::tensor::MAX_DIM,
    ensures
        r.wf(n_in as int, n_out as int),
        linear_matches(r, *w, wname@, bname@, n_in as int, n_out as int),
{
    let wm = w.provide(wname, n_out, n_in);
    let b = provide_vector(w, bname, n_out);
    Linear { w: wm, b }
}

/// Build one normalization block from the store.
fn build_norm(
    w: &crate::weights::WeightStore,
    wname: &String,
    bname: &String,
    n: usize,
    eps_q: i64,
) -> (r: LayerNorm)
    requires
        w.wf(),
        n <= crate::tensor::MAX_DIM,
        1 <= eps_q <= FP,
    ensures
        r.wf(n as int),
        norm_matches(r, *w, wname@, bname@, n as int, eps_q as int),
{
    let weight = provide_vector(w, wname, n);
    let bias = provide_vector(w, bname, n);
    LayerNorm { weight, bias, eps_q }
}

impl YiCoderTransformer {
    /// Build the stack from its configuration and a weight store. Exactly
    /// the buildable configurations are accepted; each parameter is taken
    /// from the store under its canonical name, a missing or misshapen one
    /// falling back to zeros (structural testing against incomplete
    /// checkpoints still works, the stabilized numerics keep the output
    /// finite).
    pub fn new(config: &ModelConfig, weights: &crate::weights::WeightStore) -> (r: Result<
        YiCoderTransformer,
        TransformerError,
    >)
        requires
            weights.wf(),
        ensures
            r is Ok <==> config.buildable(),
            r is Ok ==> r->Ok_0.wf(),
            r is Ok ==> r->Ok_0.hidden() == config.hidden_size,
            r is Ok ==> r->Ok_0.vocab() == config.vocab_size,
            r is Ok ==> stack_matches(r->Ok_0, *weights, *config),
            r is Err ==> r->Err_0 is LayerError,
    {
        let n = config.hidden_size;
        if n < 1 || n > crate::tensor::MAX_DIM || config.vocab_size < 1 || config.vocab_size
            > crate::tensor::MAX_DIM || config.intermediate_size < 1 || config.intermediate_size
            > crate::tensor::MAX_DIM || config.num_attention_heads < 1
            || config.num_attention_heads > n || n % config.num_attention_heads != 0
            || config.layer_norm_eps_q < 1 || config.layer_norm_eps_q > FP {
            return Err(TransformerError::LayerError("unusable model configuration".to_owned()));
        }
        let head_dim = n / config.num_attention_heads;
        proof {
            vstd::arithmetic::div_mod::lemma_fundamental_div_mod(n as int, config.num_attention_heads as int);
            assert(config.num_attention_heads * head_dim == n);
            assert(head_dim >= 1) by (nonlinear_arith)
                requires
                    config.num_attention_heads * head_dim == n,
                    1 <= config.num_attention_heads <= n,
                    0 <= head_dim,
                    n >= 1,
            ;
        }

        let mut layers: Vec<TransformerLayer> = Vec::new();
        let mut i: usize = 0;
        while i < config.num_layers
            invariant
                i <= config.num_layers,
                weights.wf(),
                config.buildable(),
                n == config.hidden_size,
                head_dim == config.hidden_size / config.num_attention_heads,
                config.num_attention_heads * head_dim == n,
                head_dim >= 1,
                layers.len() == i,
                forall|t: int| 0 <= t < i ==> (#[trigger] layers@[t]).wf(n as int),
                forall|t: int|
                    0 <= t < i ==> layer_matches(#[trigger] layers@[t], *weights, t as nat, *config),
            decreases config.num_layers - i,
        {
            let attention = MultiHeadAttention {
                query: build_linear(
                    weights,
                    &crate::loader::layer_param_name(i, ".attention.query.weight"),
                    &crate::loader::layer_param_name(i, ".attention.query.bias"),
                    n,
                    n,
                ),
                key: build_linear(
                    weights,
                    &crate::loader::layer_param_name(i, ".attention.key.weight"),
                    &crate::loader::layer_param_name(i, ".attention.key.bias"),
                    n,
                    n,
                ),
                value: build_linear(
                    weights,
                    &crate::loader::layer_param_name(i, ".attention.value.weight"),
                    &crate::loader::layer_param_name(i, ".attention.value.bias"),
                    n,
                    n,
                ),
                out: build_linear(
                    weights,
                    &crate::loader::layer_param_name(i, ".attention.out.weight"),
                    &crate::loader::layer_param_name(i, ".attention.out.bias"),
                    n,
                    n,
                ),
                num_heads: config.num_attention_heads,
                head_dim,
            };
            let feed_forward = PositionWiseFeedForward {
                fc1: build_linear(
                    weights,
                    &crate::loader::layer_param_name(i, ".ffn.fc1.weight"),
                    &crate::loader::layer_param_name(i, ".ffn.fc1.bias"),
                    n,
                    config.intermediate_size,
                ),
                fc2: build_linear(
                    weights,
                    &crate::loader::layer_param_name(i, ".ffn.fc2.weight"),
                    &crate::loader::layer_param_name(i, ".ffn.fc2.bias"),
                    config.intermediate_size,
                    n,
                ),
            };
            let norm1 = build_norm(
                weights,
                &crate::loader::layer_param_name(i, ".input_layernorm.weight"),
                &crate::loader::layer_param_name(i, ".input_layernorm.bias"),
                n,
                config.layer_norm_eps_q,
            );
            let norm2 = build_norm(
                weights,
                &crate::loader::layer_param_name(i, ".post_attention_layernorm.weight"),
                &crate::loader::layer_param_name(i, ".post_attention_layernorm.bias"),
                n,
                config.layer_norm_eps_q,
            );
            let layer = TransformerLayer { attention, feed_forward, norm1, norm2 };
            assert(layer.wf(n as int));
            assert(layer_matches(layer, *weights, i as nat, *config));
            layers.push(layer);
            i = i + 1;
        }

        let embeddings = weights.provide(
            &"model.embeddings.word_embeddings".to_owned(),
            config.vocab_size,
            n,
        );
        let norm = build_norm(
            weights,
            &"model.norm.weight".to_owned(),
            &"model.norm.bias".to_owned(),
            n,
            config.layer_norm_eps_q,
        );
        Ok(YiCoderTransformer { embeddings, layers, norm })
    }
}

/// The forward pass is deterministic: two logits matrices computed from the
/// same weights and the same input ids are identical, entry for entry.
pub proof fn lemma_forward_deterministic(
    t: YiCoderTransformer,
    ids: Seq<u32>,
    m1: Matrix,
    m2: Matrix,
)
    requires
        m1.gm() == t.s_forward(ids),
        m2.gm() == t.s_forward(ids),
    ensures
        m1.data@ == m2.data@,
        m1.rows == m2.rows,
        m1.cols == m2.cols,
{
}

} // verus!
