[package]
name = "dv_hls_gateway"
version = "0.1.0"
edition = "2021"
publish = false

[dependencies]
aes = "0.8"
anyhow = "1"
axum = "0.7"
base64 = "0.22"
bytes = "1"
clap = { version = "4", features = ["derive"] }
ctr = "0.9"
dashmap = "6"
futures = "0.3"
hex = "0.4"
quick-xml = "0.37"
reqwest = { version = "0.12", default-features = false, features = ["gzip", "rustls-tls"] }
serde = { version = "1", features = ["derive"] }
serde_json = "1"
tokio = { version = "1", features = ["full"] }
tokio-util = "0.7"
tower-http = { version = "0.6", features = ["cors"] }
tracing = "0.1"
tracing-subscriber = { version = "0.3", features = ["env-filter"] }
url = "2"
uuid = { version = "1", features = ["v4"] }
