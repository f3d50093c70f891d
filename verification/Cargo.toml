[package]
name = "sigop"
version = "0.1.0"
edition = "2021"
publish = false

[dependencies]
sha3 = "*"
log = "*"
env_logger = "*"
clap = { version = "*", features = ["derive"] }

[dev-dependencies]
hex = "*"
