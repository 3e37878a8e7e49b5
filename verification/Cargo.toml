[package]
name = "yellowstone-grpc-geyser"
version = "0.1.0"
edition = "2021"
publish = false

[dependencies]
log = "0.4"
serde_json = "1"
tokio = { version = "1", features = ["macros", "rt-multi-thread", "sync", "time"] }
tokio-stream = "0.1"
tonic = "0.10"
tonic-health = "0.10"
