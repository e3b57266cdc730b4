[package]
name = "glog_rust"
version = "0.1.0"
edition = "2021"
publish = false

[dependencies]
aes = "0.8"
cfb-mode = "0.8"
flate2 = "1"
hex = "0.4"
k256 = { version = "0.13", features = ["ecdh"] }
rand = "0.8"
rand_core = { version = "0.6", features = ["getrandom"] }
anyhow = "1"
dotenvy = "0.15"
thiserror = "1"
