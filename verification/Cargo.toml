[package]
name = "coder_openapi"
version = "0.1.0"
edition = "2021"
publish = false

[dependencies]
tokenizers = { version = "=0.23.2", default-features = false, features = ["fancy-regex"] }
safetensors = "=0.8.0"
rand = "=0.10.3"
serde = "=1.0.229"
serde_json = "=1.0.151"
serde_yaml = "=0.9.34"
actix-web = { version = "=4.15.0", default-features = false, features = ["macros"] }
tokio = { version = "=1.53.2", features = ["rt-multi-thread", "macros", "sync"] }
anyhow = "=1.0.104"
log = "=0.4.34"
hf-hub = "=0.4.3"
memmap2 = "=0.9.11"
chrono = { version = "=0.4.45", default-features = false, features = ["clock", "serde"] }
uuid = { version = "=1.27.0", features = ["v4"] }
