[package]
name = "fs_provider"
version = "0.1.0"
edition = "2021"
publish = false

[dependencies]
wascc-codec = "=0.6.0"
log = "=0.4.35"
env_logger = "=0.11.11"
rmp = "=0.8.9"
