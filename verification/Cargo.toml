[package]
name = "biddychain"
version = "0.1.0"
edition = "2021"
publish = false

[dependencies]
sha2 = "0.10"
hex = "0.4"
rsa = "0.5"
aes = "0.7"
rand = "0.8"
tokio = { version = "1", features = ["full"] }
futures = "0.3"
