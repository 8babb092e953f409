[package]
name = "usbtop_ng"
version = "0.1.0"
edition = "2021"
publish = false

[dependencies]
anyhow = "*"
chrono = "*"
clap = { version = "*", features = ["derive"] }
crossterm = "*"
env_logger = "*"
log = "*"
ratatui = "*"
tokio = { version = "*", features = ["rt-multi-thread", "macros", "fs", "io-util", "time"] }
