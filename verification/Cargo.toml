[package]
name = "of-zed-project-generator-rs"
version = "0.1.0"
edition = "2021"
publish = false

[dependencies]
argparse = "0.2"
env_logger = "0.11"
log = "0.4"
serde = { version = "1", features = ["derive"] }
serde_json = "1"
