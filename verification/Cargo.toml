[package]
name = "boguin"
version = "0.1.0"
edition = "2021"
publish = false

[dependencies]
httparse = "*"
log = "*"
native-tls = "*"
url = "*"
