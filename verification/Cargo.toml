[package]
name = "icecc_mon"
version = "0.1.0"
edition = "2021"
publish = false

[dependencies]
anyhow = "1"
async-trait = "0.1"
clap = { version = "4", features = ["derive"] }
crossterm = "0.28"
env_logger = "0.11"
log = "0.4"
ratatui = "0.29"
tokio = { version = "1", features = ["rt", "macros", "net", "io-util", "time", "sync"] }
