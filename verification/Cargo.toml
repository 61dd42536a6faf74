[package]
name = "slugout"
version = "0.1.0"
edition = "2021"
publish = false

[dependencies]
aes = "0.8"
rsa = "0.9"
rand = "0.8"
typenum = "1"
serde = { version = "1", features = ["derive"] }
serde_json = "1"
