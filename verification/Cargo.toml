[package]
name = "puma"
version = "0.1.0"
edition = "2021"
publish = false

[dependencies]
clap = { version = "*", features = ["derive"] }
dirs = "*"
env_logger = "*"
indicatif = "*"
log = "*"
prettytable-rs = "*"
reqwest = { version = "*", default-features = false }
tokio = { version = "*", features = ["rt-multi-thread", "sync", "time"] }
