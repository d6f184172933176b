[package]
name = "kc3ds"
version = "0.1.0"
edition = "2021"
publish = false

[dependencies]
image = "*"
miniz_oxide = "*"
openssl = "*"
