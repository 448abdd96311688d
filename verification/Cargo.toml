[package]
name = "dioxus_extism"
version = "0.1.0"
edition = "2021"
publish = false

[dependencies]
semver = "1"
serde_json = "1"
serde = { version = "1", features = ["derive"] }
ring = "0.17"
sha2 = "0.10"
toml = "0.8"
tokio = { version = "1", features = ["fs", "rt", "rt-multi-thread", "sync", "time"] }
async-trait = "0.1"
thiserror = "2"
tracing = "0.1"
