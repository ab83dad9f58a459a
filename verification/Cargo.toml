[package]
name = "ddr_mount"
version = "0.1.0"
edition = "2021"
publish = false

[dependencies]
unicode-width = "*"
clap = { version = "*", features = ["derive"] }
colored = "*"
env_logger = "*"
log = "*"
sudo = "*"
