[package]
name = "clicklauncher"
version = "0.1.0"
edition = "2021"
publish = false

[dependencies]
anyhow = "1"
clap = "2"
dirs = "*"
raw_sync = "*"
shared_memory = "*"
