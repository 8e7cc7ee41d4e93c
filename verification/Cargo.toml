[package]
name = "sealbox"
version = "0.1.0"
edition = "2021"
publish = false

[dependencies]
anyhow = "1"
rand = "0.9"
reqwest = { version = "0.12", default-features = false, features = ["json"] }
rpassword = "7"
serde = { version = "1", features = ["derive"] }
serde_json = "1"
tracing = "0.1"
