[package]
name = "scope_monitor"
version = "0.1.0"
edition = "2021"
publish = false

[dependencies]
chrono = "0.4"
serde = { version = "1", features = ["derive"] }
serde_yaml = "0.9"
toml = "*"
nucleo = "*"
regex = "1"
dirs = "*"
object = "*"
rand = "0.8"
crossterm = "0.28"
ratatui = "0.29"
serialport = { version = "4", default-features = false }
clap = { version = "4", features = ["derive"] }
mlua = { version = "0.9", features = ["lua54", "vendored"] }
lipsum = "*"
anyhow = "1"
