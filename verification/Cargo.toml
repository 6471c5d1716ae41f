[package]
name = "atp_router"
version = "0.1.0"
edition = "2021"
publish = false

[dependencies]
serde = { version = "1", features = ["derive"] }
serde_json = "1"
sha2 = "0.10"
anyhow = "1"
axum = { version = "0.7", features = ["ws"] }
futures-util = "0.3"
metrics = "0.21"
metrics-exporter-prometheus = { version = "0.12", default-features = false }
once_cell = "1"
prost = "0.12"
reqwest = { version = "0.11", default-features = false, features = ["json", "blocking"] }
tokio = { version = "1", features = ["full"] }
tokio-stream = "0.1"
tonic = "0.11"
tracing = "0.1"
tracing-subscriber = { version = "0.3", features = ["env-filter"] }
