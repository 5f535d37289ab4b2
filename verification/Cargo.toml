[package]
name = "folder_flattener"
version = "0.1.0"
edition = "2021"
publish = false

[dependencies]
ignore = "*"
anyhow = "*"
clap = { version = "*", features = ["derive"] }
env_logger = "*"
indicatif = "*"
log = "*"
