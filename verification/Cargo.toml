[package]
name = "rust_docker"
version = "0.1.0"
edition = "2021"
publish = false

[dependencies]
flate2 = "*"
quick-error = "*"
serde = "*"
serde_derive = "*"
serde_json = "*"
tar = "*"
uuid = { version = "*", features = ["v4"] }
