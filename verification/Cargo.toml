[package]
name = "tiny_web"
version = "0.1.0"
edition = "2021"
publish = false

[dependencies]
ascii = "1"
chrono = "0.4"
chunked_transfer = "1"
log = "0.4"
