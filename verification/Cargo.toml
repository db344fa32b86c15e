[package]
name = "chatproto"
version = "0.1.0"
edition = "2021"
publish = false

[dependencies]
anyhow = "1"
async-std = "1"
async-trait = "0.1"
byteorder = "1"
log = "0.4"
uuid = { version = "1", features = ["v4"] }
