[package]
name = "valicore"
version = "0.1.0"
edition = "2021"
publish = false

[dependencies]
anyhow = "1"
async-trait = "0.1"
axum = "0.7"
metrics = "0.23"
metrics-exporter-prometheus = "0.15"
num-complex = "0.4"
pyo3 = { version = "0.23", features = ["abi3-py310"] }
rayon = "1"
rustfft = "6"
serde = { version = "1", features = ["derive"] }
serde_json = "1"
serde_yaml = "0.9"
thiserror = "2"
tokio = { version = "1", features = ["rt-multi-thread", "net", "io-util", "time", "sync", "macros"] }
tokio-stream = "0.1"
tracing = "0.1"
wide = "0.7"
