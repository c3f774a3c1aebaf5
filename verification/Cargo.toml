[package]
name = "nexe_unpacker"
version = "0.1.0"
edition = "2021"
publish = false

[dependencies]
anyhow = "*"
cap-std = "*"
clap = "*"
memchr = "*"
serde_json = { version = "*", features = ["preserve_order"] }
