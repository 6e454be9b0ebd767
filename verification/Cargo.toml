[package]
name = "rndc"
version = "0.1.0"
edition = "2021"
publish = false

[dependencies]
base64 = "*"
hmac = "*"
md-5 = "*"
sha1 = "*"
sha2 = "*"
rand = "*"
