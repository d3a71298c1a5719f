[package]
name = "jotihunt"
version = "0.1.0"
edition = "2021"
publish = false

[dependencies]
postcard = { version = "1", features = ["use-std"] }
serde = { version = "1", features = ["derive"] }
serde_json = "1"
merging-iterator = "*"
sled = "0.34"
tokio = { version = "1", features = ["full"] }
axum = { version = "*", features = ["ws"] }
futures-util = "0.3"
async-stream = "0.3"
uuid = { version = "1", features = ["v4", "serde"] }
anyhow = "1"
tower-http = { version = "*", features = ["cors", "validate-request", "auth"] }
arc-swap = "1"
reqwest = { version = "*", default-features = false, features = ["json", "rustls-tls"] }
