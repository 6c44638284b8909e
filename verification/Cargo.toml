[package]
name = "libhttp3"
version = "0.1.0"
edition = "2021"
publish = false

[dependencies]
anyhow = "1"
axum = "0.8"
bytes = "1"
h3 = "*"
h3-axum = "*"
h3-quinn = "*"
http = "1"
quinn = "0.11"
rustls = "0.23"
rustls-pemfile = "2"
tokio = { version = "1", features = ["full"] }
tracing = "0.1"
