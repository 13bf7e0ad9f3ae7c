[package]
name = "tcfinder"
version = "0.1.0"
edition = "2021"
publish = false

[dependencies]
rust-crypto = "*"
threadpool = "*"
aes = "*"
pbkdf2 = "*"
hmac = "*"
ripemd = "*"
