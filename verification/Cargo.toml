[package]
name = "routecrab"
version = "0.4.4"
edition = "2021"
publish = false

[dependencies]
humantime = "=2.4.0"
indexmap = "=2.14.2"
reqwest = { version = "=0.13.5", default-features = false }
axum = "=0.8.9"
axum-prometheus = "=0.10.1"
askama = "=0.16.1"
async-stream = "=0.3.6"
futures = "=0.3.34"
gateway-api = "=0.22.0"
k8s-openapi = { version = "=0.28.0", features = ["latest"] }
kube = { version = "=4.2.0", default-features = false, features = ["client", "runtime"] }
metrics = "=0.24.6"
rust-embed = { version = "=8.13.0", features = ["include-exclude", "interpolate-folder-path"] }
serde = { version = "=1.0.229", features = ["derive"] }
serde_json = "=1.0.154"
tokio = { version = "=1.54.1", features = ["full"] }
tracing = "=0.1.44"
tracing-subscriber = { version = "=0.3.23", features = ["env-filter", "json"] }
