[package]
name = "codebar_server"
version = "0.1.0"
edition = "2021"
publish = false

[dependencies]
anyhow = "1"
axum = { version = "0.7", features = ["multipart"] }
chrono = "0.4"
dirs = "5"
dotenvy = "0.15"
flate2 = "1"
md5 = "0.7"
rand = "0.8"
serde = { version = "1", features = ["derive"] }
serde_json = "1"
sqlx = { version = "0.7", default-features = false, features = ["runtime-tokio", "sqlite"] }
tokio = { version = "1", features = ["full"] }
tower-http = { version = "0.5", features = ["cors", "compression-gzip", "decompression-gzip", "trace"] }
tracing = "0.1"
uuid = { version = "1", features = ["v4"] }
