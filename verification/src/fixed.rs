//! Fixed-point scalar arithmetic.
//!
//! Activations, weights and logits are stored as signed integers scaled by
//! `FP` (Q16.16). The numeric safety rules of the engine — bounded
//! magnitudes, no division by zero, no overflow — are proved here once and
//! reused by the tensor and sampler code.

use vstd::prelude::*;

verus! {

/// Fixed-point scale: a stored value `v` represents the real number `v / FP`.
pub const FP: i64 = 65536;

/// Largest activation/weight magnitude the engine keeps, in fixed-point
/// units: every stage clamps into `[-MAX_MAG, MAX_MAG]` (the real interval
/// `[-1000, 1000]`).
pub const MAX_MAG: i64 = 65536000;

/// Exponent arguments are capped at this value (the real number 100):
/// `exp_q` of anything smaller than -100 is zero at Q16.16 resolution.
pub const EXP_ARG_CAP: i64 = 6553600;

/// Internal scale used while evaluating the exponential (Q32.32).
pub const ONE32: u64 = 0x1_0000_0000;

/// Truncating division, the meaning of `/` on signed integers.
pub open spec fn tdiv(a: int, d: int) -> int {
    if a >= 0 {
        a / d
    } else {
        -((-a) / d)
    }
}

/// Clamp a raw value into the closed interval `[lo, hi]`.
pub open spec fn spec_clamp(x: int, lo: int, hi: int) -> int {
    if x < lo {
        lo
    } else if x > hi {
        hi
    } else {
        x
    }
}

/// Clamp a raw value into the closed interval `[lo, hi]`.
pub fn clamp_i64(x: i64, lo: i64, hi: i64) -> (r: i64)
    requires
        lo <= hi,
    ensures
        r == spec_clamp(x as int, lo as int, hi as int),
        lo <= r <= hi,
{
    if x < lo {
        lo
    } else if x > hi {
        hi
    } else {
        x
    }
}

/// `n` repeated Q32.32 squarings of `t`.
pub open spec fn sq_iter(t: int, n: nat) -> int
    decreases n,
{
    if n == 0 {
        t
    } else {
        sq_iter((t * t) / (ONE32 as int), (n - 1) as nat)
    }
}

/// Squaring keeps a Q32.32 value inside `[0, ONE32]`.
pub proof fn lemma_sq_iter_bounds(t: int, n: nat)
    requires
        0 <= t <= ONE32,
    ensures
        0 <= sq_iter(t, n) <= ONE32,
    decreases n,
{
    if n > 0 {
        assert(0 <= t * t <= ONE32 * ONE32) by (nonlinear_arith)
            requires
                0 <= t <= ONE32,
        ;
        assert(0 <= (t * t) / (ONE32 as int) <= ONE32) by (nonlinear_arith)
            requires
                0 <= t * t <= ONE32 * ONE32,
        ;
        lemma_sq_iter_bounds((t * t) / (ONE32 as int), (n - 1) as nat);
    }
}

/// Squaring the unit value is a fixed point: `sq_iter(ONE32, n) == ONE32`.
pub proof fn lemma_sq_iter_one(n: nat)
    ensures
        sq_iter(ONE32 as int, n) == ONE32,
    decreases n,
{
    if n > 0 {
        assert((ONE32 as int * ONE32 as int) / (ONE32 as int) == ONE32 as int);
        lemma_sq_iter_one((n - 1) as nat);
    }
}

/// The value of `exp_q(y)`: `e^(-y/FP)` in Q16.16, evaluated as
/// `(1 - y/2^20)^(2^20)` by twenty repeated squarings at Q32.32 precision.
pub open spec fn spec_exp_q(y: int) -> int {
    sq_iter(ONE32 - (y * FP) / 0x100000, 20) / (FP as int)
}

/// `e^(-y/FP)` in Q16.16 for `0 <= y <= EXP_ARG_CAP`.
///
/// The result is exact for `y == 0` (it is `FP`), never exceeds `FP`, and is
/// never negative, so a set of these values always forms a valid system of
/// sampling weights.
pub fn exp_q(y: i64) -> (r: u64)
    requires
        0 <= y <= EXP_ARG_CAP,
    ensures
        r == spec_exp_q(y as int),
        r <= FP,
        y == 0 ==> r == FP,
{
    let y32: u64 = (y as u64) * (FP as u64);
    let u: u64 = y32 / 0x100000;
    assert(u < ONE32) by {
        assert(y * FP <= EXP_ARG_CAP * FP);
    };
    let mut t: u64 = ONE32 - u;
    let ghost t0: int = t as int;
    let mut i: usize = 0;
    while i < 20
        invariant
            0 <= t <= ONE32,
            i <= 20,
            t == sq_iter(t0, i as nat),
            0 <= t0 <= ONE32,
            y == 0 ==> t0 == ONE32,
        decreases 20 - i,
    {
        proof {
            lemma_sq_iter_bounds(t0, (i + 1) as nat);
            assert((t as int) * (t as int) <= (ONE32 as int) * (ONE32 as int)) by (nonlinear_arith)
                requires
                    0 <= t <= ONE32,
            ;
        }
        let sq: u128 = (t as u128) * (t as u128);
        let ghost prev: int = t as int;
        t = (sq / (ONE32 as u128)) as u64;
        assert(t == (prev * prev) / (ONE32 as int)) by {
            assert(sq == prev * prev);
            assert(sq / (ONE32 as u128) == (prev * prev) / (ONE32 as int));
            assert(0 <= (prev * prev) / (ONE32 as int) <= ONE32) by (nonlinear_arith)
                requires
                    0 <= prev <= ONE32,
            ;
        };
        assert(sq_iter(t0, (i + 1) as nat) == t) by {
            lemma_sq_iter_unfold(t0, (i + 1) as nat);
        };
        i = i + 1;
    }
    proof {
        lemma_sq_iter_bounds(t0, 20);
        if y == 0 {
            lemma_sq_iter_one(20);
        }
    }
    t / (FP as u64)
}

/// Unfolding from the far end: one more squaring round applies to the result
/// of the previous rounds.
proof fn lemma_sq_iter_unfold(t: int, n: nat)
    requires
        n > 0,
    ensures
        sq_iter(t, n) == {
            let prev = sq_iter(t, (n - 1) as nat);
            (prev * prev) / (ONE32 as int)
        },
    decreases n,
{
    if n == 1 {
        reveal_with_fuel(sq_iter, 2);
        assert(sq_iter(t, 1) == (t * t) / (ONE32 as int));
        assert(sq_iter(t, 0) == t);
    } else {
        lemma_sq_iter_unfold((t * t) / (ONE32 as int), (n - 1) as nat);
    }
}

/// Truncating division by a positive divisor never grows the magnitude.
pub proof fn lemma_tdiv_bound(a: int, d: int, cap: int)
    requires
        d >= 1,
        -cap <= a <= cap,
        0 <= cap,
    ensures
        -cap <= tdiv(a, d) <= cap,
{
    if a >= 0 {
        assert(0 <= a / d <= a) by (nonlinear_arith)
            requires
                d >= 1,
                a >= 0,
        ;
    } else {
        assert(0 <= (-a) / d <= -a) by (nonlinear_arith)
            requires
                d >= 1,
                -a >= 0,
        ;
    }
}

/// Truncating division shrinks the magnitude by the divisor.
pub proof fn lemma_tdiv_mag(a: int, d: int, cap: int)
    requires
        d >= 1,
        -cap <= a <= cap,
        0 <= cap,
    ensures
        -(cap / d) <= tdiv(a, d) <= cap / d,
{
    if a >= 0 {
        vstd::arithmetic::div_mod::lemma_div_is_ordered(a, cap, d);
        vstd::arithmetic::div_mod::lemma_div_pos_is_pos(a, d);
    } else {
        vstd::arithmetic::div_mod::lemma_div_is_ordered(-a, cap, d);
        vstd::arithmetic::div_mod::lemma_div_pos_is_pos(-a, d);
    }
}

/// The exponential stays within `[0, FP]` on its whole domain.
pub proof fn lemma_exp_q_bounds(y: int)
    requires
        0 <= y <= EXP_ARG_CAP,
    ensures
        0 <= spec_exp_q(y) <= FP,
{
    let u = (y * FP) / 0x100000;
    assert(0 <= u < ONE32) by (nonlinear_arith)
        requires
            0 <= y <= EXP_ARG_CAP,
            u == (y * FP) / 0x100000,
    ;
    lemma_sq_iter_bounds(ONE32 - u, 20);
}

/// Integer square root: the unique `r` with `r^2 <= v < (r+1)^2`.
pub fn isqrt_u64(v: u64) -> (r: u64)
    ensures
        r * r <= v,
        (r + 1) * (r + 1) > v,
{
    let mut lo: u64 = 0;
    let mut hi: u64 = 0x1_0000_0000;
    assert(hi * hi > v) by {
        assert(0x1_0000_0000int * 0x1_0000_0000int == 0x1_0000_0000_0000_0000int);
    };
    while lo + 1 < hi
        invariant
            lo < hi <= 0x1_0000_0000,
            lo * lo <= v,
            hi * hi > v,
        decreases hi - lo,
    {
        let mid: u64 = lo + (hi - lo) / 2;
        proof {
            assert((mid as int) * (mid as int) <= 0x1_0000_0000int * 0x1_0000_0000int)
                by (nonlinear_arith)
                requires
                    0 <= mid <= 0x1_0000_0000,
            ;
        }
        let sq: u128 = (mid as u128) * (mid as u128);
        if sq <= v as u128 {
            lo = mid;
        } else {
            hi = mid;
        }
    }
    lo
}

} // verus!
