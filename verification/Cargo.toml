[package]
name = "ws_tool"
version = "0.1.0"
edition = "2021"
publish = false

[dependencies]
base64 = "*"
flate2 = "*"
httparse = "*"
rand = "*"
sha1 = "*"
