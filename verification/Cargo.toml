[package]
name = "seesea-installer"
version = "0.1.0"
edition = "2021"
publish = false

[dependencies]
anyhow = "1"
chrono = "0.4"
clap = { version = "4", features = ["derive"] }
env_logger = "*"
fs_extra = "1"
log = "0.4"
serde = { version = "1", features = ["derive"] }
toml = "*"
walkdir = "2"
winreg = "*"
zstd = "*"
