[package]
name = "kvile"
version = "0.1.0"
edition = "2021"
publish = false

[dependencies]
base64 = "0.22"
sha2 = "0.10"
rand = "0.8"
urlencoding = "2"
serde_json = "1"
url = "2"
