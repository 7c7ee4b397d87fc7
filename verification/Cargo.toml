[package]
name = "csv_viewer"
version = "0.1.0"
edition = "2021"
publish = false

[dependencies]
csv = "*"
clap = { version = "*", features = ["derive"] }
ratatui = "*"
color-eyre = "*"
log = "*"
env_logger = "*"
