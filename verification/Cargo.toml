[package]
name = "psx"
version = "0.1.0"
edition = "2021"
publish = false

[dependencies]
sha2 = "0.10"
md-5 = "0.10"
log = "0.4"
env_logger = "0.10"
image = { version = "0.24", default-features = false }
imageproc = { version = "0.23", default-features = false }
rand = "0.8"
serde = { version = "1", features = ["derive"] }
serde_json = "1"
