[package]
name = "oauth_sig"
version = "0.1.0"
edition = "2021"
publish = false

[dependencies]
url = "2"
hmac = "0.12"
sha1 = "0.10"
