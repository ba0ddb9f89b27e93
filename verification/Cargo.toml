[package]
name = "pyroxene"
version = "0.1.0"
edition = "2021"
publish = false

[dependencies]
chrono = "0.4"
hex = "0.4"
rand = "0.8"
rkyv = "0.8"
rsa = "0.9"
sha2 = { version = "0.10", features = ["oid"] }
socket2 = "0.5"
