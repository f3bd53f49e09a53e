[package]
name = "sparkling"
version = "0.1.0"
edition = "2021"
publish = false

[dependencies]
chrono = "0.4"
flate2 = "1"
serde = { version = "1", features = ["derive"] }
serde_json = "1"
tokio = { version = "1", features = ["full"] }
redis = { version = "0.23", features = ["tokio-comp"] }
reqwest = { version = "0.11", features = ["blocking", "gzip"] }
csv = "1"
prost = "0.12"
anyhow = "1"
axum = "0.7"
tower-http = { version = "0.5", features = ["fs"] }
futures-util = "0.3"
tokio-stream = { version = "0.1", features = ["sync"] }
lazy_static = "1"
google-cloud-storage = "0.15"
async-trait = "0.1"
