//! Model execution and lifecycle engine for a local chat-completion service.
//!
//! The engine models tensors and activations as fixed-point integers, so the
//! whole numeric pipeline — transformer forward pass, numerical-safety
//! policy, sampling — is verified. Calls into outside crates (tokenizer,
//! weight-container parsing, randomness) go through small trusted wrappers.

pub mod fixed;
pub mod sampler;
pub mod tensor;
pub mod transformer;
pub mod weights;
pub mod error;
pub mod locales;
pub mod config;
pub mod loader;
pub mod tokenizer;
pub mod chat;
pub mod manager;
