//! Asset resolution, download idempotence, and weight materialization.

use coder_openapi::config::{missing_files, required_files, ModelFiles};
use coder_openapi::fixed::{FP, MAX_MAG};
use coder_openapi::loader::{cache_path, layer_param_name, load_weights, usize_to_string};
use coder_openapi::weights::{entries_of_payload, parse_safetensors, q16_of_bits};

fn files() -> ModelFiles {
    ModelFiles {
        weights: vec!["model.safetensors".to_string()],
        config: "config.json".to_string(),
        tokenizer: "tokenizer.json".to_string(),
        tokenizer_config: "tokenizer_config.json".to_string(),
        generation_config: "generation_config.json".to_string(),
    }
}

#[test]
fn test_required_files_resolution_order() {
    let r = required_files(&files());
    assert_eq!(
        r,
        vec![
            "model.safetensors".to_string(),
            "tokenizer.json".to_string(),
            "config.json".to_string(),
            "tokenizer_config.json".to_string(),
            "generation_config.json".to_string(),
        ]
    );
}

#[test]
fn test_download_idempotent_when_all_present() {
    // A second download with an unchanged manifest fetches nothing that is
    // already present.
    let req = required_files(&files());
    let all_present = vec![true; req.len()];
    let to_fetch = missing_files(&req, &all_present);
    assert!(to_fetch.is_empty());
}

#[test]
fn test_missing_files_selects_absent_only() {
    let req = required_files(&files());
    let present = vec![true, false, true, false, true];
    let to_fetch = missing_files(&req, &present);
    assert_eq!(
        to_fetch,
        vec!["tokenizer.json".to_string(), "tokenizer_config.json".to_string()]
    );
}

#[test]
fn test_usize_to_string() {
    assert_eq!(usize_to_string(0), "0");
    assert_eq!(usize_to_string(7), "7");
    assert_eq!(usize_to_string(42), "42");
    assert_eq!(usize_to_string(1000), "1000");
}

#[test]
fn test_layer_param_name() {
    assert_eq!(
        layer_param_name(0, ".attention.query.weight"),
        "layer_0.attention.query.weight"
    );
    assert_eq!(layer_param_name(11, ".ffn.fc2.bias"), "layer_11.ffn.fc2.bias");
}

#[test]
fn test_cache_path() {
    let p = cache_path(
        &"models_cache".to_string(),
        &"01-ai/Yi-Coder-1.5B-Chat".to_string(),
        &"config.json".to_string(),
    );
    assert_eq!(p, "models_cache/01-ai/Yi-Coder-1.5B-Chat/config.json");
}

#[test]
fn test_q16_of_bits_known_values() {
    // 1.0 -> one fixed-point unit.
    assert_eq!(q16_of_bits(1.0f32.to_bits()), Some(FP));
    // -2.5 scales exactly.
    assert_eq!(q16_of_bits((-2.5f32).to_bits()), Some(-(5 * FP / 2)));
    // Zero maps to zero (both signs).
    assert_eq!(q16_of_bits(0.0f32.to_bits()), Some(0));
    assert_eq!(q16_of_bits((-0.0f32).to_bits()), Some(0));
    // Values beyond the bounded range clamp.
    assert_eq!(q16_of_bits(1.0e9f32.to_bits()), Some(MAX_MAG));
    assert_eq!(q16_of_bits((-1.0e9f32).to_bits()), Some(-MAX_MAG));
    // Non-finite values are rejected.
    assert_eq!(q16_of_bits(f32::NAN.to_bits()), None);
    assert_eq!(q16_of_bits(f32::INFINITY.to_bits()), None);
    assert_eq!(q16_of_bits(f32::NEG_INFINITY.to_bits()), None);
}

#[test]
fn test_entries_of_payload() {
    let floats = [0.5f32, -1.0f32, 3.0f32];
    let mut bytes: Vec<u8> = Vec::new();
    for f in floats {
        bytes.extend_from_slice(&f.to_le_bytes());
    }
    let entries = entries_of_payload(&bytes).unwrap();
    assert_eq!(entries, vec![FP / 2, -FP, 3 * FP]);

    // A ragged payload is rejected.
    let ragged = vec![0u8, 0u8, 0u8];
    assert!(entries_of_payload(&ragged).is_none());

    // A NaN payload is rejected.
    let mut bad: Vec<u8> = Vec::new();
    bad.extend_from_slice(&f32::NAN.to_le_bytes());
    assert!(entries_of_payload(&bad).is_none());
}

#[test]
fn test_load_weights_from_container() {
    // Build a real container, parse it back, and materialize the store.
    let data: Vec<f32> = vec![1.0, 2.0, -0.5, 0.25];
    let mut raw: Vec<u8> = Vec::new();
    for f in &data {
        raw.extend_from_slice(&f.to_le_bytes());
    }
    let view =
        safetensors::tensor::TensorView::new(safetensors::Dtype::F32, vec![2, 2], &raw).unwrap();
    let container =
        safetensors::serialize(vec![("model.norm.weight".to_string(), view)], None).unwrap();

    let parsed = parse_safetensors(&container).unwrap();
    assert_eq!(parsed.len(), 1);
    assert_eq!(parsed[0].name, "model.norm.weight");
    assert_eq!(parsed[0].shape, vec![2, 2]);
    assert_eq!(parsed[0].dtype, "F32");

    let store = load_weights(&parsed).unwrap();
    let m = store.provide(&"model.norm.weight".to_string(), 2, 2);
    assert_eq!(m.data, vec![FP, 2 * FP, -FP / 2, FP / 4]);

    // A name the store lacks falls back to zeros.
    let z = store.provide(&"model.norm.bias".to_string(), 2, 2);
    assert_eq!(z.data, vec![0, 0, 0, 0]);

    // So does a shape disagreement.
    let z2 = store.provide(&"model.norm.weight".to_string(), 1, 2);
    assert_eq!(z2.data, vec![0, 0]);
}
