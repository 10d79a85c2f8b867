[package]
name = "peerlink"
version = "0.1.0"
edition = "2021"
publish = false

[dependencies]
hex = "0.4"
tokio = { version = "1", features = ["io-util", "macros", "rt", "sync"] }
rand_core = "0.6"
