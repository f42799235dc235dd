[package]
name = "hier_kv_gateway"
version = "0.1.0"
edition = "2021"
publish = false

[dependencies]
arc-swap = "1"
async-nats = "0.38"
async-trait = "0.1"
base64 = "0.22"
bytes = "1"
chrono = "0.4"
dashmap = "6"
futures = "0.3"
parking_lot = "0.12"
postcard = { version = "1", features = ["use-std"] }
rand = "0.9"
redis = { version = "0.27", features = ["tokio-comp"] }
reqwest = { version = "0.12", default-features = false, features = ["json", "stream"] }
serde = { version = "1", features = ["derive", "rc"] }
serde_json = "1"
thiserror = "1"
tokio = { version = "1", features = ["full"] }
toml = "0.8"
tracing = "0.1"
xxhash-rust = { version = "0.8", features = ["xxh3"] }
