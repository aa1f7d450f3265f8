[package]
name = "qpac"
version = "0.1.0"
edition = "2021"
publish = false

[dependencies]
argon2 = "*"
axum = "*"
base64 = "*"
clap = { version = "*", features = ["derive", "env"] }
color-eyre = "*"
debounced = "*"
futures = "*"
ring = "*"
serde = { version = "*", features = ["derive"] }
serde_json = "*"
sha2 = "*"
sqlx = { version = "*", default-features = false, features = ["runtime-tokio", "sqlite"] }
thiserror = "*"
tokio = { version = "*", features = ["full"] }
tokio-stream = "*"
tower-http = { version = "*", features = ["compression-gzip", "trace", "validate-request"] }
tracing = "*"
tracing-error = "*"
tracing-subscriber = { version = "*", features = ["env-filter", "json"] }
urlencoding = "*"
