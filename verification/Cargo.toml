[package]
name = "rs_proxy"
version = "0.1.0"
edition = "2021"
publish = false

[dependencies]
rust-crypto = "0.2"
rand = "0.8"
nanoid = "0.4"
tokio = { version = "1", features = ["full"] }
yaml-rust = "0.4"
log = "0.4"
log4rs = { version = "1", default-features = false, features = ["console_appender", "pattern_encoder"] }
socket2 = "0.5"
libloading = "0.8"
once_cell = "1"
parking_lot = "0.12"
