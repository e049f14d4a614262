[package]
name = "vnc"
version = "0.1.0"
edition = "2021"
publish = false

[dependencies]
tokio = { version = "1", features = ["io-util", "rt", "sync"] }
tracing = "0.1"
wasm-bindgen-futures = "0.4"
