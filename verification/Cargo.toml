[package]
name = "repors"
version = "0.1.0"
edition = "2021"
publish = false

[dependencies]
clap = { version = "=4.6.7", features = ["derive"] }
env_logger = "=0.11.11"
git2 = "=0.21.0"
log = "=0.4.34"
quick-xml = "=0.31.0"
uuid = { version = "=1.29.0", features = ["v4"] }
