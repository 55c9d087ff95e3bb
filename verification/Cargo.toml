[package]
name = "prompt_engine"
version = "0.1.0"
edition = "2021"
publish = false

[dependencies]
log = "0.4"
semver = "1.0"
serde = { version = "1.0", features = ["derive"] }
serde_json = "1.0"
