[package]
name = "naia"
version = "0.1.0"
edition = "2021"
publish = false

[dependencies]
byteorder = "=1.5.0"
hmac = "=0.12.1"
sha2 = "=0.10.9"
log = "=0.4.34"
simple_logger = "=5.2.0"
tokio = { version = "=1.54.1", features = ["rt-multi-thread", "macros", "net", "time"] }
rand = "=0.8.8"
