[package]
name = "rshttp2"
version = "0.1.0"
edition = "2021"
publish = false

[dependencies]
base62 = "*"
flexi_logger = "*"
futures = "0.1"
log = "0.4"
random = "*"
tokio = "0.1"
