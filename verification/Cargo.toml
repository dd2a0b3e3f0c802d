[package]
name = "subtrace"
version = "0.1.0"
edition = "2021"
publish = false

[dependencies]
base64 = "*"
regex = "*"
serde_json = "*"
serde_yaml = "*"
serde = "*"
log = "*"
env_logger = "*"
chrono = "*"
colored = "*"
atty = "*"
dirs = "*"
clap = "*"
tokio = { version = "*", features = ["full"] }
reqwest = { version = "*", default-features = false }
trust-dns-client = "*"
trust-dns-resolver = "*"
