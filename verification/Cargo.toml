[package]
name = "fuzzy_log"
version = "0.1.0"
edition = "2021"
publish = false

[dependencies]
byteorder = "1"
env_logger = { version = "0.11", default-features = false }
mio = "0.6"
