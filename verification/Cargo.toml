[package]
name = "sref_core"
version = "0.1.0"
edition = "2021"
publish = false

[dependencies]
aes-gcm = "0.10"
argon2 = "0.5"
rand = "0.8"
sha2 = "0.10"
encoding_rs = "0.8"
serde = { version = "1", features = ["derive"] }
serde_json = "1"
walkdir = "2"
