[package]
name = "rust-gpio"
version = "0.1.0"
edition = "2021"
publish = false

[dependencies]
rppal = "*"
log = "0.4"
env_logger = "*"
