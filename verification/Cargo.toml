[package]
name = "klangraum"
version = "0.1.0"
edition = "2021"
publish = false

[dependencies]
crossbeam-channel = "*"
minimp3 = "*"
jack = "*"
native-tls = "*"
tungstenite = "*"
