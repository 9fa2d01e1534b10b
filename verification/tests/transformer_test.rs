//! The transformer stack: construction with fallback weights, forward-pass
//! determinism and boundedness, and the scalar nonlinearities.

use coder_openapi::fixed::FP;
use coder_openapi::tensor::Matrix;
use coder_openapi::transformer::{gelu_q, layer_norm_rows, ModelConfig, YiCoderTransformer};
use coder_openapi::weights::WeightStore;

fn tiny_config() -> ModelConfig {
    ModelConfig {
        bos_token_id: 1,
        eos_token_id: 2,
        pad_token_id: 0,
        temperature_q: 45875,
        top_p_q: 58982,
        max_tokens: 8,
        hidden_size: 4,
        num_attention_heads: 2,
        intermediate_size: 8,
        num_layers: 2,
        layer_norm_eps_q: 1,
        vocab_size: 8,
    }
}

#[test]
fn test_gelu() {
    // GELU is exactly zero at zero.
    assert_eq!(gelu_q(0), 0);
    // gelu(1.0) ~= 0.8413, gelu(-1.0) ~= -0.1587 (tanh form), within a
    // small fixed-point tolerance.
    let up = gelu_q(FP);
    assert!((up - 55138).abs() < 500, "gelu(1.0) == {up}");
    let down = gelu_q(-FP);
    assert!((down + 10400).abs() < 500, "gelu(-1.0) == {down}");
    // Monotone ordering around the origin.
    assert!(down < 0 && 0 < up && up < FP);
}

#[test]
fn test_layer_norm_uniform_row_yields_bias() {
    // A constant row has zero variance: the stabilized divisor kicks in and
    // the output is exactly the shift term.
    let m = Matrix { data: vec![7 * FP, 7 * FP, 7 * FP, 7 * FP], rows: 1, cols: 4 };
    let w = vec![FP, FP, FP, FP];
    let b = vec![3, -5, 0, 9];
    let out = layer_norm_rows(&m, &w, &b, 1);
    assert_eq!(out.data, vec![3, -5, 0, 9]);
}

#[test]
fn test_yi_coder_transformer_forward() {
    // Synthetic all-zero fallback weights: the store is empty, every lookup
    // falls back to zeros, and the stabilized forward pass still yields
    // finite (bounded) logits of the right shape.
    let config = tiny_config();
    let weights = WeightStore::new();
    let stack = YiCoderTransformer::new(&config, &weights).unwrap();

    let ids: Vec<u32> = vec![0, 1, 2];
    let logits = stack.forward(&ids).unwrap();
    assert_eq!(logits.rows, 3);
    assert_eq!(logits.cols, 8);
    assert_eq!(logits.data.len(), 24);
    for &v in logits.data.iter() {
        assert!(-coder_openapi::fixed::MAX_MAG <= v && v <= coder_openapi::fixed::MAX_MAG);
    }
}

#[test]
fn test_forward_deterministic() {
    // Identical weights and input ids give identical logits, entry for
    // entry: the forward pass has no hidden randomness.
    let config = tiny_config();
    let weights = WeightStore::new();
    let stack = YiCoderTransformer::new(&config, &weights).unwrap();
    let ids: Vec<u32> = vec![3, 1, 4, 1];
    let a = stack.forward(&ids).unwrap();
    let b = stack.forward(&ids).unwrap();
    assert_eq!(a.data, b.data);
    assert_eq!(a.rows, b.rows);
    assert_eq!(a.cols, b.cols);
}

#[test]
fn test_forward_rejects_invalid_ids() {
    // Ids outside the vocabulary are invalid input, rejected with a typed
    // error before any computation.
    let config = tiny_config();
    let weights = WeightStore::new();
    let stack = YiCoderTransformer::new(&config, &weights).unwrap();
    assert!(stack.forward(&vec![999u32]).is_err());
    // So is an empty id sequence.
    assert!(stack.forward(&vec![]).is_err());
}

#[test]
fn test_forward_with_identity_embeddings_separates_tokens() {
    // A diagonal embedding table with a unit final norm: after
    // normalization and the tied output projection, the largest logit of a
    // one-token prompt sits at that token's own id.
    let mut config = tiny_config();
    config.num_layers = 0;
    config.vocab_size = 4;
    let mut diag = vec![0i64; 16];
    for i in 0..4 {
        diag[i * 4 + i] = FP;
    }
    let store = WeightStore {
        tensors: vec![
            (
                "model.embeddings.word_embeddings".to_string(),
                Matrix { data: diag, rows: 4, cols: 4 },
            ),
            (
                "model.norm.weight".to_string(),
                Matrix { data: vec![FP, FP, FP, FP], rows: 1, cols: 4 },
            ),
        ],
    };
    let stack = YiCoderTransformer::new(&config, &store).unwrap();
    for id in 0u32..4 {
        let logits = stack.forward(&vec![id]).unwrap();
        let row: Vec<i64> = logits.data.clone();
        let best = coder_openapi::sampler::greedy(&row);
        assert_eq!(best as u32, id, "token {id} should project onto itself");
    }
}

#[test]
fn test_unbuildable_config_rejected() {
    // Heads must tile the hidden width.
    let mut config = tiny_config();
    config.num_attention_heads = 3;
    let weights = WeightStore::new();
    assert!(YiCoderTransformer::new(&config, &weights).is_err());
}
