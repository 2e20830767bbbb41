[package]
name = "dufs"
version = "0.1.0"
edition = "2021"
publish = false

[dependencies]
alphanumeric-sort = "1"
anyhow = "1"
async-deflate-zip = "*"
async-stream = "0.3"
base64 = "0.22"
bytes = "1"
chardetng = "1"
chrono = { version = "0.4", default-features = false, features = ["clock"] }
content_inspector = "0.2"
form_urlencoded = "1"
futures-util = "0.3"
headers = "0.4"
hex = "0.4"
http-body-util = "0.1"
hyper = { version = "1", features = ["http1", "server"] }
mime_guess = "2"
serde = { version = "1", features = ["derive"] }
serde_json = "1"
sha2 = "*"
tokio = { version = "1", features = ["rt-multi-thread", "macros", "fs", "io-util", "sync"] }
tokio-util = { version = "0.7", features = ["io-util"] }
uuid = { version = "1", features = ["v4"] }
walkdir = "2"
xml = "*"
