//! The model manager: status semantics, availability, and the end-to-end
//! chat-completion path.

use coder_openapi::chat::{ChatCompletionMessage, ChatCompletionParams};
use coder_openapi::config::ChatDefaults;
use coder_openapi::error::AppError;
use coder_openapi::manager::{compute_status, ModelManager};
use coder_openapi::transformer::ModelConfig;
use coder_openapi::weights::WeightStore;

fn tiny_config() -> ModelConfig {
    ModelConfig {
        bos_token_id: 1,
        eos_token_id: 2,
        pad_token_id: 0,
        temperature_q: 45875,
        top_p_q: 58982,
        max_tokens: 8,
        hidden_size: 4,
        num_attention_heads: 2,
        intermediate_size: 8,
        num_layers: 1,
        layer_norm_eps_q: 1,
        vocab_size: 4,
    }
}

fn defaults() -> ChatDefaults {
    ChatDefaults {
        temperature_q: 45875,
        top_p_q: 58982,
        n: 1,
        max_tokens: 4,
        stream: false,
    }
}

fn word_level_tokenizer() -> tokenizers::Tokenizer {
    // A four-word vocabulary, enough to drive the engine end to end.
    let spec = "{\"version\":\"1.0\",\"model\":{\"type\":\"WordLevel\",\"vocab\":{\"Hello\":0,\"world\":1,\"code\":2,\"<unk>\":3},\"unk_token\":\"<unk>\"}}";
    tokenizers::Tokenizer::from_bytes(spec.as_bytes()).unwrap()
}

fn plain_params() -> ChatCompletionParams {
    ChatCompletionParams {
        temperature_q: None,
        top_p_q: None,
        n: None,
        max_tokens: None,
        stream: Some(false),
    }
}

fn user_message(text: &str) -> ChatCompletionMessage {
    ChatCompletionMessage { role: "user".to_string(), content: text.to_string() }
}

#[test]
fn test_compute_status_enabled_iff_all_present() {
    // Enabled exactly when every required file exists; cached when any does.
    let all = vec![true, true, true];
    let s = compute_status(&all);
    assert!(s.is_enabled && s.is_cached);

    let some = vec![true, false, true];
    let s = compute_status(&some);
    assert!(!s.is_enabled && s.is_cached);

    let none = vec![false, false, false];
    let s = compute_status(&none);
    assert!(!s.is_enabled && !s.is_cached);
}

#[test]
fn test_refresh_status_records_probes() {
    let manager = ModelManager::new();
    let (yi, deepseek) = manager.refresh_status(&vec![true, true], &vec![true, false]);
    assert!(yi.is_enabled && yi.is_cached);
    assert!(!deepseek.is_enabled && deepseek.is_cached);
    let looked_up = manager.get_model_status(&"yi-coder".to_string()).unwrap();
    assert!(looked_up.is_enabled && looked_up.is_cached);
}

#[test]
fn test_list_models() {
    let manager = ModelManager::new();
    let all = manager.list_models();
    let names: Vec<&str> = all.iter().map(|(n, _)| n.as_str()).collect();
    assert!(names.contains(&"yi-coder"));
    assert!(names.contains(&"deepseek-coder"));
    for (_, status) in &all {
        assert!(!status.is_enabled && !status.is_cached);
    }
    assert!(!manager.is_model_available(&"yi-coder".to_string()));
}

#[test]
fn test_download_model_installs_handle() {
    let manager = ModelManager::new();
    assert!(manager.get_yi_coder().is_none());
    let r = manager.download_model(
        &"yi-coder".to_string(),
        &tiny_config(),
        &WeightStore::new(),
        word_level_tokenizer(),
    );
    assert!(r.is_ok());
    assert!(manager.get_yi_coder().is_some());
    assert!(manager.get_deepseek_coder().is_none());
    assert!(manager.is_model_available(&"yi-coder".to_string()));
}

#[test]
fn test_download_model_unknown_id() {
    let manager = ModelManager::new();
    let r = manager.download_model(
        &"not-a-model".to_string(),
        &tiny_config(),
        &WeightStore::new(),
        word_level_tokenizer(),
    );
    assert!(r.is_err());
}

#[test]
fn test_chat_completions() {
    // End to end: a manager with yi-coder enabled answers {model:
    // "yi-coder", messages: [user "Hello"], stream: false} with one
    // assistant message holding non-empty content, and no error.
    let manager = ModelManager::new();
    manager
        .download_model(
            &"yi-coder".to_string(),
            &tiny_config(),
            &WeightStore::new(),
            word_level_tokenizer(),
        )
        .unwrap();

    let (messages, usage) = manager
        .chat_completion(
            &"yi-coder".to_string(),
            &vec![user_message("Hello")],
            &plain_params(),
            &defaults(),
            None,
        )
        .unwrap();
    assert_eq!(messages.len(), 1);
    assert_eq!(messages[0].role, "assistant");
    assert!(!messages[0].content.is_empty());
    assert_eq!(usage.prompt_tokens, 1);
    assert_eq!(usage.completion_tokens, 4);
    assert_eq!(usage.total_tokens, 5);
}

#[test]
fn test_invalid_model() {
    // A request for an unknown model id fails with an availability-class
    // (client) error, never a crash.
    let manager = ModelManager::new();
    let r = manager.chat_completion(
        &"not-a-model".to_string(),
        &vec![user_message("Hello")],
        &plain_params(),
        &defaults(),
        None,
    );
    match r {
        Err(e) => {
            assert!(matches!(e, AppError::InvalidModel(_)));
            assert!(e.is_client_error());
            assert_eq!(e.status_code(), 400);
        }
        Ok(_) => panic!("an unknown model id must be rejected"),
    }
}

#[test]
fn test_empty_messages() {
    let manager = ModelManager::new();
    let r = manager.chat_completion(
        &"yi-coder".to_string(),
        &vec![],
        &plain_params(),
        &defaults(),
        None,
    );
    assert!(matches!(r, Err(AppError::Chat(_))));
}

#[test]
fn test_known_model_not_downloaded_is_unavailable() {
    let manager = ModelManager::new();
    let r = manager.chat_completion(
        &"yi-coder".to_string(),
        &vec![user_message("Hello")],
        &plain_params(),
        &defaults(),
        None,
    );
    match r {
        Err(e) => {
            assert!(matches!(e, AppError::Model(_)));
            assert!(e.is_client_error());
        }
        Ok(_) => panic!("a model that was never downloaded must be unavailable"),
    }
}

#[test]
fn test_stream_response() {
    // Streaming pushes fragments onto the bounded channel; the final reply
    // still arrives.
    let manager = ModelManager::new();
    manager
        .download_model(
            &"yi-coder".to_string(),
            &tiny_config(),
            &WeightStore::new(),
            word_level_tokenizer(),
        )
        .unwrap();

    let (tx, rx) = std::sync::mpsc::sync_channel::<ChatCompletionMessage>(32);
    let params = ChatCompletionParams {
        temperature_q: None,
        top_p_q: None,
        n: None,
        max_tokens: Some(3),
        stream: Some(true),
    };
    let (messages, usage) = manager
        .chat_completion(
            &"yi-coder".to_string(),
            &vec![user_message("Hello world")],
            &params,
            &defaults(),
            Some(&tx),
        )
        .unwrap();
    drop(tx);
    assert_eq!(messages.len(), 1);
    assert_eq!(messages[0].role, "assistant");
    assert!(usage.completion_tokens <= 3);
    let fragments: Vec<ChatCompletionMessage> = rx.into_iter().collect();
    assert_eq!(fragments.len(), usage.completion_tokens);
    for f in &fragments {
        assert_eq!(f.role, "assistant");
    }
}

#[test]
fn test_temperature_effect() {
    // Any in-range temperature yields a successful sampled completion.
    let manager = ModelManager::new();
    manager
        .download_model(
            &"yi-coder".to_string(),
            &tiny_config(),
            &WeightStore::new(),
            word_level_tokenizer(),
        )
        .unwrap();
    for temp in [6554i64, 32768, 65536, 98304] {
        let params = ChatCompletionParams {
            temperature_q: Some(temp),
            top_p_q: None,
            n: None,
            max_tokens: Some(2),
            stream: Some(false),
        };
        let r = manager.chat_completion(
            &"yi-coder".to_string(),
            &vec![user_message("Hello")],
            &params,
            &defaults(),
            None,
        );
        assert!(r.is_ok(), "temperature {temp} should generate");
    }
}
