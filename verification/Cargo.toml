[package]
name = "nethop"
version = "0.1.0"
edition = "2021"
publish = false

[dependencies]
serde_json = "*"
native-tls = "*"
walkdir = "*"
