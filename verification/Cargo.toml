[package]
name = "aptrb"
version = "0.1.0"
edition = "2021"
publish = false

[dependencies]
chrono = "*"
clap = "*"
env_logger = "*"
log = "*"

[dev-dependencies]
toml = "*"
