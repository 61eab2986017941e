[package]
name = "open_pubusb"
version = "0.1.0"
edition = "2021"
publish = false

[dependencies]
anyhow = "1"
axum = "0.8"
base64 = "0.22"
clap = { version = "4", features = ["derive"] }
config = { version = "0.15", default-features = false, features = ["toml"] }
fjall = "3"
jiff = "0.2"
metrics = "0.24"
metrics-exporter-prometheus = { version = "0.17", default-features = false }
mimalloc = "0.1"
pbjson-types = "0.8"
prost = "0.14"
reqwest = { version = "0.12", default-features = false }
sd-notify = "*"
serde = { version = "1", features = ["derive"] }
serde_json = "1"
thiserror = "2"
tokio = { version = "1", features = ["full"] }
tokio-stream = "0.1"
tokio-util = "0.7"
tonic = "0.14"
tonic-health = "0.14"
tonic-prost = "0.14"
tonic-reflection = "0.14"
tracing = "0.1"
tracing-journald = "0.3"
tracing-subscriber = { version = "0.3", features = ["env-filter", "json"] }
