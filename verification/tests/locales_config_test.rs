//! Localization lookup, configuration backfill, and the error taxonomy.

use coder_openapi::config::{AppConfig, Chat, ChatDefaults, LocalesConfig, ModelConfig,
    ModelFiles, ServerConfig};
use coder_openapi::error::AppError;
use coder_openapi::locales::{reload_needed, LocaleTable, Locales};

fn sample_locales() -> Locales {
    Locales::new(vec![
        LocaleTable {
            locale: "en".to_string(),
            entries: vec![
                ("errors.model.not_found".to_string(), "Model not found".to_string()),
                ("models.yi_coder".to_string(), "Yi Coder".to_string()),
            ],
        },
        LocaleTable {
            locale: "zh".to_string(),
            entries: vec![("models.yi_coder".to_string(), "Yi".to_string())],
        },
    ])
}

fn sample_app_config() -> AppConfig {
    AppConfig {
        server: ServerConfig {
            host: "127.0.0.1".to_string(),
            port: 8080,
            shutdown_timeout: 30,
        },
        locales: LocalesConfig { path: "locales".to_string(), default: "en".to_string() },
        models: vec![(
            "yi-coder".to_string(),
            ModelConfig {
                hf_hub_id: "01-ai/Yi-Coder-1.5B-Chat".to_string(),
                model_files: ModelFiles {
                    weights: vec!["model.safetensors".to_string()],
                    config: "config.json".to_string(),
                    tokenizer: "tokenizer.json".to_string(),
                    tokenizer_config: "tokenizer_config.json".to_string(),
                    generation_config: "generation_config.json".to_string(),
                },
                hidden_size: None,
                num_attention_heads: Some(2),
                num_hidden_layers: None,
                intermediate_size: None,
                vocab_size: None,
            },
        )],
        models_cache_dir: "models_cache".to_string(),
        chat: Chat {
            defaults: ChatDefaults {
                temperature_q: 45875,
                top_p_q: 58982,
                n: 1,
                max_tokens: 100,
                stream: false,
            },
        },
    }
}

#[test]
fn test_translate() {
    let locales = sample_locales();
    let hit = locales
        .translate(&"en".to_string(), &"models.yi_coder".to_string())
        .unwrap();
    assert_eq!(hit, "Yi Coder");
    let other = locales
        .translate(&"zh".to_string(), &"models.yi_coder".to_string())
        .unwrap();
    assert_eq!(other, "Yi");
    assert!(locales
        .translate(&"en".to_string(), &"missing.key".to_string())
        .is_err());
    assert!(locales
        .translate(&"fr".to_string(), &"models.yi_coder".to_string())
        .is_err());
}

#[test]
fn test_set_default() {
    let mut locales = sample_locales();
    assert!(locales.set_default(&"en".to_string()).is_ok());
    assert!(locales.set_default(&"fr".to_string()).is_err());
    assert_eq!(locales.default_locale, "en");
}

#[test]
fn test_t() {
    let mut locales = sample_locales();
    locales.set_default(&"en".to_string()).unwrap();
    assert_eq!(locales.t(&"models.yi_coder".to_string()), "Yi Coder");
    // A missing key falls back to the key itself.
    assert_eq!(locales.t(&"no.such.key".to_string()), "no.such.key");
}

#[test]
fn test_reload_needed() {
    assert!(reload_needed(None, 5));
    assert!(reload_needed(Some(3), 5));
    assert!(!reload_needed(Some(5), 5));
    assert!(!reload_needed(Some(7), 5));
}

#[test]
fn test_get_model_config_backfill() {
    let config = sample_app_config();
    let doc = b"{\"hidden_size\": 64, \"num_attention_heads\": 8, \"num_hidden_layers\": 2, \"intermediate_size\": 256, \"vocab_size\": 1000}".to_vec();
    let mc = config
        .get_model_config(&"yi-coder".to_string(), Some(&doc))
        .unwrap();
    // A local override wins; absent fields come from the document.
    assert_eq!(mc.num_attention_heads, Some(2));
    assert_eq!(mc.hidden_size, Some(64));
    assert_eq!(mc.num_hidden_layers, Some(2));
    assert_eq!(mc.intermediate_size, Some(256));
    assert_eq!(mc.vocab_size, Some(1000));

    // Without a document the absent fields stay absent.
    let mc2 = config.get_model_config(&"yi-coder".to_string(), None).unwrap();
    assert_eq!(mc2.hidden_size, None);

    // Unknown keys are rejected.
    assert!(config
        .get_model_config(&"not-a-model".to_string(), None)
        .is_err());
}

#[test]
fn test_get_model_config_path() {
    let config = sample_app_config();
    let p = coder_openapi::loader::ModelDownloader::get_model_config_path(
        &config,
        &"yi-coder".to_string(),
    )
    .unwrap();
    assert_eq!(p, "models_cache/01-ai/Yi-Coder-1.5B-Chat/config.json");
}

#[test]
fn test_error_classes() {
    // Availability and parameter faults are client errors; numeric and
    // internal faults are server errors.
    assert_eq!(AppError::InvalidModel("x".to_string()).status_code(), 400);
    assert_eq!(AppError::InvalidParameter("temperature".to_string()).status_code(), 400);
    assert_eq!(AppError::Model("x".to_string()).status_code(), 400);
    assert_eq!(AppError::NotFound.status_code(), 404);
    assert_eq!(AppError::Unauthorized.status_code(), 401);
    assert_eq!(AppError::Forbidden.status_code(), 403);
    assert_eq!(AppError::TokenizerError("x".to_string()).status_code(), 500);
    assert_eq!(AppError::Candle("x".to_string()).status_code(), 500);
    assert_eq!(AppError::Generic("x".to_string()).status_code(), 500);
    assert!(AppError::InvalidModel("x".to_string()).is_client_error());
    assert!(!AppError::Generic("x".to_string()).is_client_error());
}
