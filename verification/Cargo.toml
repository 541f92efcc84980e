[package]
name = "rubic_network"
version = "0.1.0"
edition = "2021"
publish = false

[dependencies]
dashmap = "6"
rand = "0.8"
uuid = { version = "1", features = ["v4"] }
thiserror = "1"
tokio = { version = "1", features = ["net", "sync", "time", "rt-multi-thread", "io-util"] }
