[package]
name = "versioned_map"
version = "0.1.0"
edition = "2021"
publish = false

[dependencies]
anyhow = "1"
async-compat = "0.2"
async-trait = "0.1"
hyper = { version = "0.14", features = ["client", "http1", "tcp"] }
hyper-multipart-rfc7578 = "0.8"
serde = { version = "1", features = ["derive"] }
serde_json = "1"
sha2 = "0.10"
tokio = { version = "1", features = ["full"] }
url = "2"
