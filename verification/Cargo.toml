[package]
name = "gcs_artifact"
version = "0.1.0"
edition = "2021"
publish = false

[dependencies]
anyhow = "=1.0.104"
backoff = { version = "=0.4.0", features = ["tokio"] }
google-cloud-storage = { version = "0.24", default-features = false, features = ["rustls-tls", "auth"] }
lazy_static = "=1.5.1"
tokio = { version = "=1.54.1", features = ["sync", "rt", "macros"] }
tracing = "=0.1.44"
zstd = "=0.13.4"
