[package]
name = "logos_messaging_a2a"
version = "0.1.0"
edition = "2021"
publish = false

[dependencies]
async-trait = "0.1"
base64 = "0.22"
hex = "0.4"
k256 = { version = "0.13", features = ["ecdsa"] }
reqwest = { version = "0.12", default-features = false }
serde = { version = "1", features = ["derive"] }
serde_json = "1"
storage-bindings = "*"
tempfile = "3"
thiserror = "1"
tokio = { version = "1", features = ["sync", "time", "rt", "fs", "io-util", "macros"] }
tracing = "0.1"
uuid = { version = "1", features = ["v4"] }
