[package]
name = "shared_storage"
version = "0.1.0"
edition = "2021"
publish = false

[dependencies]
sha2 = "0.10"
bytes = "1"
futures = "0.3"
async-trait = "0.1"
serde = { version = "1", features = ["derive"] }
serde_json = "1"
json5 = "0.4"
thiserror = "1"
tokio = { version = "1", features = ["fs", "io-util", "rt-multi-thread", "sync", "macros"] }
