[package]
name = "rpcperf"
version = "0.1.0"
edition = "2021"
publish = false

[dependencies]
rand = { version = "=0.8.8", features = ["small_rng"] }
tiny_http = "=0.12.0"
