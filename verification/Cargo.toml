[package]
name = "tty7_ui"
version = "0.1.0"
edition = "2021"
publish = false

[dependencies]
log = "0.4"
smol = "2"
uuid = { version = "1", features = ["v4"] }
