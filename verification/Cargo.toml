[package]
name = "verify_tests"
version = "0.1.0"
edition = "2021"
publish = false

[dependencies]
sha256 = { version = "*", default-features = false }
serde = { version = "*", features = ["derive"] }
serde_json = "*"
glob = "*"
inquire = "*"
clap = { version = "*", features = ["derive"] }
