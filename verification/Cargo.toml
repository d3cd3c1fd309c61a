[package]
name = "terracotta"
version = "0.1.0"
edition = "2021"
publish = false

[dependencies]
chrono = "0.4"
fern = "*"
log = "0.4"
rand = "0.9"
serde = { version = "1", features = ["derive"] }
serde_json = "1"
tokio = { version = "1", features = ["net", "sync", "rt-multi-thread", "macros", "io-util"] }
toml = "*"
