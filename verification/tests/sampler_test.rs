//! Sampling behavior: greedy determinism, the softmax distribution, and
//! parameter validation.

use coder_openapi::chat::{validate_params, ChatCompletionParams};
use coder_openapi::config::ChatDefaults;
use coder_openapi::error::AppError;
use coder_openapi::fixed::{exp_q, FP};
use coder_openapi::sampler::{greedy, pick_weighted, softmax_weights, temperature_sample};

fn defaults() -> ChatDefaults {
    ChatDefaults {
        temperature_q: 45875, // 0.7
        top_p_q: 58982,       // 0.9
        n: 1,
        max_tokens: 100,
        stream: false,
    }
}

#[test]
fn test_greedy_picks_first_maximum() {
    // Arg-max over the vocabulary dimension, first index on ties.
    let logits: Vec<i64> = vec![FP, 3 * FP, 3 * FP, -FP];
    assert_eq!(greedy(&logits), 1);
    // Deterministic: the same logits always give the same pick.
    for _ in 0..10 {
        assert_eq!(greedy(&logits), 1);
    }
    let single: Vec<i64> = vec![-5 * FP];
    assert_eq!(greedy(&single), 0);
}

#[test]
fn test_exp_q_values() {
    // e^0 == 1 exactly.
    assert_eq!(exp_q(0), FP as u64);
    // e^-1 ~= 0.367879; allow a small fixed-point tolerance.
    let e1 = exp_q(FP) as i64;
    let expected = 24109;
    assert!((e1 - expected).abs() < 64, "exp_q(1.0) == {e1}");
    // e^-100 vanishes at this resolution.
    assert_eq!(exp_q(100 * FP), 0);
}

#[test]
fn test_softmax_weights_max_gets_full_weight() {
    let logits: Vec<i64> = vec![FP, 2 * FP, 3 * FP];
    let (weights, total) = softmax_weights(&logits, FP);
    assert_eq!(weights.len(), 3);
    // The maximal logit always carries the full weight.
    assert_eq!(weights[2], FP as u64);
    assert_eq!(total, weights[0] + weights[1] + weights[2]);
    assert!(total >= FP as u64);
}

#[test]
fn test_pick_weighted_boundaries() {
    let weights: Vec<u64> = vec![10, 0, 5];
    let total = 15u64;
    assert_eq!(pick_weighted(&weights, total, 0), 0);
    assert_eq!(pick_weighted(&weights, total, 9), 0);
    // A zero-weight entry is never selected: the draw lands on index 2.
    assert_eq!(pick_weighted(&weights, total, 10), 2);
    assert_eq!(pick_weighted(&weights, total, 14), 2);
}

#[test]
fn test_sample_tokens_temperature_one() {
    // logits [1, 2, 3] at temperature 1.0, sampled many times, approximate
    // softmax([1,2,3]) ~= [0.09, 0.24, 0.67] within 0.05.
    let logits: Vec<i64> = vec![FP, 2 * FP, 3 * FP];
    let mut counts = [0usize; 3];
    let trials = 1000usize;
    for _ in 0..trials {
        let idx = temperature_sample(&logits, FP);
        counts[idx] += 1;
    }
    let expected = [0.09f64, 0.24f64, 0.67f64];
    for i in 0..3 {
        let actual = counts[i] as f64 / trials as f64;
        assert!(
            (actual - expected[i]).abs() < 0.05,
            "token {i}: empirical {actual} vs expected {}",
            expected[i]
        );
    }
}

#[test]
fn test_sample_tokens_invalid_temperature() {
    // A negative temperature is rejected at validation, before any tensor
    // computation.
    let params = ChatCompletionParams {
        temperature_q: Some(-FP),
        top_p_q: None,
        n: None,
        max_tokens: None,
        stream: None,
    };
    let result = validate_params(&params, &defaults());
    match result {
        Err(AppError::InvalidParameter(field)) => assert_eq!(field, "temperature"),
        Err(_) => panic!("expected a parameter-validation failure"),
        Ok(_) => panic!("a negative temperature must be rejected"),
    }
}

#[test]
fn test_infer_parameter_validation() {
    let d = defaults();
    // Invalid temperature.
    let p = ChatCompletionParams {
        temperature_q: Some(-FP),
        top_p_q: None,
        n: None,
        max_tokens: None,
        stream: None,
    };
    assert!(validate_params(&p, &d).is_err());
    // Invalid top_p (1.5 > 1).
    let p = ChatCompletionParams {
        temperature_q: None,
        top_p_q: Some(FP + FP / 2),
        n: None,
        max_tokens: None,
        stream: None,
    };
    assert!(validate_params(&p, &d).is_err());
    // Invalid n.
    let p = ChatCompletionParams {
        temperature_q: None,
        top_p_q: None,
        n: Some(0),
        max_tokens: None,
        stream: None,
    };
    assert!(validate_params(&p, &d).is_err());
    // Invalid max_tokens.
    let p = ChatCompletionParams {
        temperature_q: None,
        top_p_q: None,
        n: None,
        max_tokens: Some(0),
        stream: None,
    };
    assert!(validate_params(&p, &d).is_err());
}

#[test]
fn test_edge_cases() {
    let d = defaults();
    // A tiny but positive temperature is accepted.
    let p = ChatCompletionParams {
        temperature_q: Some(6), // ~0.0001
        top_p_q: None,
        n: None,
        max_tokens: None,
        stream: None,
    };
    assert!(validate_params(&p, &d).is_ok());
    // The largest allowed temperature is accepted.
    let p = ChatCompletionParams {
        temperature_q: Some(2 * FP),
        top_p_q: None,
        n: None,
        max_tokens: None,
        stream: None,
    };
    assert!(validate_params(&p, &d).is_ok());
    // Just above it is rejected.
    let p = ChatCompletionParams {
        temperature_q: Some(2 * FP + 1),
        top_p_q: None,
        n: None,
        max_tokens: None,
        stream: None,
    };
    assert!(validate_params(&p, &d).is_err());
    // Zero is rejected: no silent clamping.
    let p = ChatCompletionParams {
        temperature_q: Some(0),
        top_p_q: None,
        n: None,
        max_tokens: None,
        stream: None,
    };
    assert!(validate_params(&p, &d).is_err());
}
