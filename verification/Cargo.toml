[package]
name = "slamwich"
version = "0.1.0"
edition = "2021"
publish = false

[dependencies]
kiddo = "5"
nalgebra = "0.33"
serde = { version = "1", features = ["derive"] }
thiserror = "2"
tracing = "0.1"
