//! Token sampling: greedy arg-max and temperature-scaled softmax sampling.
//!
//! Logits are fixed-point values (see `fixed`). Temperature sampling scales
//! the distance to the maximum logit by `1/temperature`, maps it through the
//! exponential, and draws from the resulting discrete distribution. The
//! drawing itself is split so that everything around the single random draw
//! is verified: `pick_weighted` is exact for every random value.

use vstd::prelude::*;

use crate::fixed::{exp_q, lemma_exp_q_bounds, lemma_sq_iter_one, spec_exp_q, EXP_ARG_CAP, FP,
    MAX_MAG, ONE32};

verus! {

/// Largest vocabulary size the sampler accepts.
pub const MAX_VOCAB: usize = 0x1000_0000;

/// The greatest element of a non-empty sequence.
pub open spec fn max_of(l: Seq<i64>) -> int
    recommends
        l.len() > 0,
    decreases l.len(),
{
    if l.len() <= 1 {
        l[0] as int
    } else {
        let m = max_of(l.drop_last());
        if l.last() > m {
            l.last() as int
        } else {
            m
        }
    }
}

/// `i` is the position greedy sampling picks: the first index holding the
/// maximum logit.
pub open spec fn is_greedy_pick(l: Seq<i64>, i: int) -> bool {
    &&& 0 <= i < l.len()
    &&& forall|j: int| 0 <= j < l.len() ==> l[j] <= l[i]
    &&& forall|j: int| 0 <= j < i ==> l[j] < l[i]
}

/// Greedy sampling is deterministic: the pick is uniquely determined by the
/// logits alone.
pub proof fn lemma_greedy_deterministic(l: Seq<i64>, i: int, j: int)
    requires
        is_greedy_pick(l, i),
        is_greedy_pick(l, j),
    ensures
        i == j,
{
    if i < j {
        assert(l[i] < l[j]);
    }
    if j < i {
        assert(l[j] < l[i]);
    }
}

/// Deterministic arg-max over the vocabulary dimension: returns the first
/// index of the greatest logit.
pub fn greedy(logits: &Vec<i64>) -> (r: usize)
    requires
        logits.len() > 0,
    ensures
        is_greedy_pick(logits@, r as int),
        logits@[r as int] == max_of(logits@),
{
    let mut best: usize = 0;
    let mut i: usize = 1;
    while i < logits.len()
        invariant
            0 < i <= logits.len(),
            best < i,
            is_greedy_pick(logits@.take(i as int), best as int),
        decreases logits.len() - i,
    {
        if logits[i] > logits[best] {
            best = i;
        }
        i = i + 1;
    }
    proof {
        assert(logits@.take(logits@.len() as int) =~= logits@);
        lemma_max_is_greedy(logits@, best as int);
    }
    best
}

/// At a greedy pick the logit equals the maximum of the sequence.
proof fn lemma_max_is_greedy(l: Seq<i64>, i: int)
    requires
        is_greedy_pick(l, i),
    ensures
        l[i] == max_of(l),
    decreases l.len(),
{
    if l.len() > 1 {
        if i == l.len() - 1 {
            lemma_max_le(l.drop_last());
        } else {
            lemma_max_is_greedy(l.drop_last(), i);
        }
    }
}

/// The maximum of a non-empty sequence is attained and bounds every element.
proof fn lemma_max_le(l: Seq<i64>)
    requires
        l.len() > 0,
    ensures
        forall|j: int| 0 <= j < l.len() ==> l[j] <= max_of(l),
        exists|j: int| 0 <= j < l.len() && l[j] == max_of(l),
    decreases l.len(),
{
    if l.len() <= 1 {
        assert(l[0] == max_of(l));
    } else {
        lemma_max_le(l.drop_last());
        assert(forall|j: int| 0 <= j < l.len() - 1 ==> l[j] == l.drop_last()[j]);
        let m = max_of(l.drop_last());
        if l.last() > m {
            assert(l[l.len() - 1] == max_of(l));
        } else {
            let j = choose|j: int| 0 <= j < l.len() - 1 && l.drop_last()[j] == m;
            assert(l[j] == max_of(l));
        }
    }
}

/// The unnormalized softmax weight of position `i` for temperature `t`:
/// the exponential of the (capped, temperature-scaled) distance to the
/// maximum logit.
pub open spec fn spec_weight(l: Seq<i64>, t: int, i: int) -> int {
    let d = ((max_of(l) - l[i]) * FP) / t;
    spec_exp_q(
        if d > EXP_ARG_CAP {
            EXP_ARG_CAP as int
        } else {
            d
        },
    )
}

/// Sum of the first `n` softmax weights.
pub open spec fn sum_weights(l: Seq<i64>, t: int, n: nat) -> int
    decreases n,
{
    if n == 0 {
        0
    } else {
        sum_weights(l, t, (n - 1) as nat) + spec_weight(l, t, n - 1)
    }
}

/// Softmax over the logits with max-subtraction, as unnormalized weights plus
/// their total. The weights are non-negative by construction and the total is
/// at least `FP` (the maximal logit always gets the full weight `FP`), so the
/// result is always a valid discrete distribution: no division by a
/// near-zero normalizer can occur, whatever the logits.
pub fn softmax_weights(logits: &Vec<i64>, temp_q: i64) -> (r: (Vec<u64>, u64))
    requires
        0 < logits.len() <= MAX_VOCAB,
        0 < temp_q <= 2 * FP,
        forall|i: int| 0 <= i < logits.len() ==> -MAX_MAG <= #[trigger] logits@[i] <= MAX_MAG,
    ensures
        r.0.len() == logits.len(),
        forall|i: int| 0 <= i < logits.len() ==> #[trigger] r.0@[i] == spec_weight(
            logits@,
            temp_q as int,
            i,
        ),
        r.1 == sum_weights(logits@, temp_q as int, logits.len() as nat),
        FP <= r.1 <= logits.len() * (FP as int),
{
    // Maximum logit and its first position.
    let m_idx = greedy(logits);
    let m: i64 = logits[m_idx];
    proof {
        lemma_max_le(logits@);
        assert(-MAX_MAG <= m <= MAX_MAG);
    }

    let mut weights: Vec<u64> = Vec::new();
    let mut total: u64 = 0;
    let mut i: usize = 0;
    while i < logits.len()
        invariant
            i <= logits.len(),
            logits.len() <= MAX_VOCAB,
            0 < temp_q <= 2 * FP,
            forall|k: int| 0 <= k < logits.len() ==> -MAX_MAG <= #[trigger] logits@[k] <= MAX_MAG,
            m == max_of(logits@),
            -MAX_MAG <= m <= MAX_MAG,
            forall|k: int| 0 <= k < logits.len() ==> #[trigger] logits@[k] <= m,
            weights.len() == i,
            forall|k: int| 0 <= k < i ==> #[trigger] weights@[k] == spec_weight(
                logits@,
                temp_q as int,
                k,
            ),
            total == sum_weights(logits@, temp_q as int, i as nat),
            0 <= total <= i * (FP as int),
        decreases logits.len() - i,
    {
        proof {
            assert(logits@[i as int] <= m);
            assert(-MAX_MAG <= logits@[i as int] <= MAX_MAG);
        }
        let d_raw: i64 = m - logits[i];
        proof {
            assert(0 <= (d_raw as int) * (FP as int) <= 2 * MAX_MAG * FP) by (nonlinear_arith)
                requires
                    0 <= d_raw <= 2 * MAX_MAG,
            ;
        }
        let prod: u64 = (d_raw as u64) * (FP as u64);
        let scaled: u64 = prod / (temp_q as u64);
        proof {
            assert(0 <= (prod as int) / (temp_q as int) <= prod) by (nonlinear_arith)
                requires
                    0 < temp_q,
                    0 <= prod,
            ;
        }
        let capped: i64 = if scaled > EXP_ARG_CAP as u64 {
            EXP_ARG_CAP
        } else {
            scaled as i64
        };
        let w: u64 = exp_q(capped);
        assert(w == spec_weight(logits@, temp_q as int, i as int));
        weights.push(w);
        total = total + w;
        proof {
            assert(total <= (i + 1) * (FP as int)) by (nonlinear_arith)
                requires
                    total <= i * (FP as int) + FP,
                    0 <= i,
            ;
        }
        i = i + 1;
    }
    proof {
        // The maximal position carries the full weight FP, so the total is
        // at least FP.
        assert(spec_weight(logits@, temp_q as int, m_idx as int) == FP) by {
            lemma_sq_iter_one(20);
            assert((ONE32 as int) / (FP as int) == FP as int);
        };
        lemma_sum_ge_term(logits@, temp_q as int, m_idx as int, logits.len() as nat);
    }
    (weights, total)
}

/// Every softmax weight is non-negative, so the total dominates each term.
pub proof fn lemma_sum_ge_term(l: Seq<i64>, t: int, k: int, n: nat)
    requires
        0 <= k < n,
        n <= l.len(),
        t > 0,
    ensures
        sum_weights(l, t, n) >= spec_weight(l, t, k),
        sum_weights(l, t, n) >= 0,
    decreases n,
{
    lemma_weight_in_range(l, t, n - 1);
    if n - 1 > k {
        lemma_sum_ge_term(l, t, k, (n - 1) as nat);
    } else if n >= 1 {
        lemma_sum_nonneg(l, t, (n - 1) as nat);
    }
}

/// A single softmax weight lies within `[0, FP]`.
pub proof fn lemma_weight_in_range(l: Seq<i64>, t: int, i: int)
    requires
        0 <= i < l.len(),
        t > 0,
    ensures
        0 <= spec_weight(l, t, i) <= FP,
{
    lemma_max_le(l);
    let num = (max_of(l) - l[i]) * FP;
    assert(num >= 0) by (nonlinear_arith)
        requires
            max_of(l) - l[i] >= 0,
            num == (max_of(l) - l[i]) * FP,
    ;
    let d = num / t;
    assert(0 <= d) by (nonlinear_arith)
        requires
            t > 0,
            num >= 0,
            d == num / t,
    ;
    let capped = if d > EXP_ARG_CAP {
        EXP_ARG_CAP as int
    } else {
        d
    };
    lemma_exp_q_bounds(capped);
}

/// A sum of softmax weights is non-negative.
proof fn lemma_sum_nonneg(l: Seq<i64>, t: int, n: nat)
    requires
        n <= l.len(),
        t > 0,
    ensures
        sum_weights(l, t, n) >= 0,
    decreases n,
{
    if n > 0 {
        lemma_sum_nonneg(l, t, (n - 1) as nat);
        lemma_weight_in_range(l, t, n - 1);
    }
}

/// Prefix sums: `pick_weighted` returns the unique index whose cumulative
/// weight interval contains the random value.
pub open spec fn prefix_sum(w: Seq<u64>, n: nat) -> int
    decreases n,
{
    if n == 0 {
        0
    } else {
        prefix_sum(w, (n - 1) as nat) + w[n - 1]
    }
}

/// Weighted selection: returns the unique `idx` with
/// `prefix_sum(idx) <= r < prefix_sum(idx + 1)`. In particular the selected
/// weight is positive: a token with zero weight is never drawn.
pub fn pick_weighted(weights: &Vec<u64>, total: u64, r: u64) -> (idx: usize)
    requires
        weights.len() > 0,
        total == prefix_sum(weights@, weights.len() as nat),
        r < total,
    ensures
        idx < weights.len(),
        prefix_sum(weights@, idx as nat) <= r < prefix_sum(weights@, (idx + 1) as nat),
        weights@[idx as int] > 0,
{
    let mut cum: u64 = 0;
    let mut i: usize = 0;
    while i < weights.len()
        invariant
            i <= weights.len(),
            total == prefix_sum(weights@, weights.len() as nat),
            cum == prefix_sum(weights@, i as nat),
            r >= cum,
            r < total,
            cum <= total,
        decreases weights.len() - i,
    {
        proof {
            lemma_prefix_sum_mono(weights@, (i + 1) as nat, weights.len() as nat);
        }
        let w = weights[i];
        let next = cum + w;
        if r < next {
            return i;
        }
        cum = next;
        i = i + 1;
    }
    proof {
        assert(false);
    }
    0
}

/// Prefix sums are monotone in the prefix length.
proof fn lemma_prefix_sum_mono(w: Seq<u64>, a: nat, b: nat)
    requires
        a <= b,
    ensures
        prefix_sum(w, a) <= prefix_sum(w, b),
    decreases b,
{
    if a < b {
        lemma_prefix_sum_mono(w, a, (b - 1) as nat);
    }
}

/// Relies on rand::random_range: a uniform draw from `0..n` is always below
/// `n` (the function panics on an empty range, which `n > 0` rules out).
#[verifier::external_body]
fn random_below(n: u64) -> (r: u64)
    requires
        n > 0,
    ensures
        r < n,
{
    rand::random_range(0..n)
}

/// Temperature sampling: softmax weights at the given temperature, then a
/// weighted random draw. Whatever the random outcome, the returned index is
/// in range and its softmax weight is positive.
pub fn temperature_sample(logits: &Vec<i64>, temp_q: i64) -> (r: usize)
    requires
        0 < logits.len() <= MAX_VOCAB,
        0 < temp_q <= 2 * FP,
        forall|i: int| 0 <= i < logits.len() ==> -MAX_MAG <= #[trigger] logits@[i] <= MAX_MAG,
    ensures
        r < logits.len(),
        spec_weight(logits@, temp_q as int, r as int) > 0,
{
    let (weights, total) = softmax_weights(logits, temp_q);
    proof {
        lemma_sum_is_prefix(logits@, temp_q as int, weights@, logits.len() as nat);
    }
    let rnd = random_below(total);
    pick_weighted(&weights, total, rnd)
}

/// When every element of `w` is the softmax weight at its index, the prefix
/// sum of `w` is the sum of weights.
proof fn lemma_sum_is_prefix(l: Seq<i64>, t: int, w: Seq<u64>, n: nat)
    requires
        n <= w.len(),
        forall|i: int| 0 <= i < n ==> #[trigger] w[i] == spec_weight(l, t, i),
    ensures
        prefix_sum(w, n) == sum_weights(l, t, n),
    decreases n,
{
    if n > 0 {
        lemma_sum_is_prefix(l, t, w, (n - 1) as nat);
    }
}

} // verus!
