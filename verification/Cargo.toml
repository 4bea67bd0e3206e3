[package]
name = "genlang"
version = "0.1.0"
edition = "2021"
publish = false

[dependencies]
rand = "0.7"
serde = { version = "1", features = ["derive"] }
serde-lexpr = "*"
structopt = "0.3"
env_logger = "*"
log = "0.4"
