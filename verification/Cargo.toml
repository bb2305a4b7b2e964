[package]
name = "serprog"
version = "0.1.0"
edition = "2021"
publish = false

[dependencies]
anyhow = "*"
clap = "*"
indicatif = "*"
log = "*"
serialport = { version = "*", default-features = false }
simple_logger = "*"
