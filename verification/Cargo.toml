[package]
name = "lobachevsky"
version = "0.1.0"
edition = "2021"
publish = false

[dependencies]
clap = { version = "4", features = ["derive"] }
crossterm = "0.28"
fastrand = "2"
log = "0.4"
lovely_env_logger = "*"
midly = "0.5"
miette = { version = "7", features = ["fancy"] }
rand = "0.9"
ratatui = "0.29"
serde = { version = "1", features = ["derive"] }
thiserror = "2"
toml = "0.8"
