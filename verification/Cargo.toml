[package]
name = "harness"
version = "0.1.0"
edition = "2021"
publish = false

[dependencies]
serde_json = "1"
tokio-util = "0.7"
tokio = { version = "1", features = ["rt", "rt-multi-thread", "time", "sync"] }
async-trait = "0.1"
