[package]
name = "http_types"
version = "0.1.0"
edition = "2021"
publish = false

[dependencies]
base64 = "0.13"
url = "2"
infer = "0.2"
http = "0.2"
futures-lite = "1"
serde = "1"
serde_json = "1"
serde_urlencoded = "0.7"
