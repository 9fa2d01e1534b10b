//! The authentication decision: exactly a matching bearer token passes.

use coder_openapi::error::{authenticate, AuthOutcome};

#[test]
fn test_authentication_valid_key() {
    let key = "test-api-key".to_string();
    let outcome = authenticate(Some(&key), Some(&key.clone()));
    assert_eq!(outcome, AuthOutcome::Authorized);
    assert_eq!(outcome.status_code(), 200);
}

#[test]
fn test_authentication_missing_key() {
    let configured = "test-api-key".to_string();
    let outcome = authenticate(None, Some(&configured));
    assert_eq!(outcome, AuthOutcome::MissingKey);
    assert_eq!(outcome.status_code(), 401);
}

#[test]
fn test_authentication_invalid_key() {
    let presented = "wrong-key".to_string();
    let configured = "test-api-key".to_string();
    let outcome = authenticate(Some(&presented), Some(&configured));
    assert_eq!(outcome, AuthOutcome::InvalidKey);
    assert_eq!(outcome.status_code(), 401);
}

#[test]
fn test_authentication_missing_env_key() {
    let presented = "any-key".to_string();
    let outcome = authenticate(Some(&presented), None);
    assert_eq!(outcome, AuthOutcome::ServerMisconfigured);
    assert_eq!(outcome.status_code(), 500);
}
