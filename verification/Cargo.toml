[package]
name = "ccs_sidecar"
version = "0.1.0"
edition = "2021"
publish = false

[dependencies]
serde = { version = "1", features = ["derive"] }
serde_json = "1"
axum = "0.7"
tokio = { version = "1", features = ["full"] }
async-stream = "0.3"
futures = "0.3"
uuid = { version = "1", features = ["v4"] }
log = "0.4"
chrono = "0.4"
dirs = "5"
rustls = { version = "0.23", default-features = false, features = ["ring", "std"] }
