[package]
name = "overdrive"
version = "0.1.0"
edition = "2021"
publish = false

[dependencies]
serde = { version = "1", features = ["derive"] }
serde_json = "1"
thiserror = "1"
libloading = "0.8"
zeroize = { version = "1", features = ["derive"] }
