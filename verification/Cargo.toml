[package]
name = "filter_clipped"
version = "0.1.0"
edition = "2021"
publish = false

[dependencies]
clap = { version = "*", features = ["derive"] }
env_logger = "*"
log = "*"
rust-htslib = { version = "*", default-features = false }
