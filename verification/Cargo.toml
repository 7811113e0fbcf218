[package]
name = "tokio-rustls"
version = "0.1.0"
edition = "2021"
publish = false

[dependencies]
rustls = "0.20"
tokio = "1"

[dev-dependencies]
rcgen = "0.10"
rustls-pemfile = "1"
