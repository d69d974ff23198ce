[package]
name = "rox"
version = "0.1.0"
edition = "2021"
publish = false

[dependencies]
petgraph = "0.6"
blake3 = "1"
anyhow = "1"
clap = { version = "4", features = ["derive"] }
tokio = { version = "1", features = ["full"] }
serde = { version = "1", features = ["derive"] }
serde_json = "1"
serde_yaml = "0.9"
bytes = "1"
tracing = "0.1"
tracing-subscriber = { version = "0.3", features = ["env-filter"] }
bincode = "1"
async-trait = "0.1"
axum = "0.7"
tower-http = { version = "0.5", features = ["cors", "trace"] }
async-stream = "0.3"
futures-core = "0.3"
notify = "6"
