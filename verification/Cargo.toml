[package]
name = "bhc_metadata"
version = "0.1.0"
edition = "2021"
publish = false

[dependencies]
chrono = { version = "=0.4.45", features = ["serde"] }
cssparser = "=0.33.0"
env_logger = "=0.11.11"
html5gum = "=0.5.7"
mktemp = "*"
serde = { version = "=1.0.229", features = ["derive"] }
serde_json = "=1.0.154"
tokio = { version = "=1.54.1", features = ["full"] }
tower-lsp = "=0.20.0"
