[package]
name = "cell_codec"
version = "0.1.0"
edition = "2021"
publish = false

[dependencies]
indexmap = "2"
bytes = "1"
csv = "1"
protobuf = "3.7"
serde = { version = "1", features = ["derive"] }
serde_json = "1"
tokio = { version = "1", features = ["io-std", "io-util", "macros", "net", "rt-multi-thread", "sync"] }
