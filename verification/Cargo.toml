[package]
name = "baitts"
version = "0.1.0"
edition = "2021"
publish = false

[dependencies]
anyhow = "1"
axum = { version = "0.8", features = ["multipart"] }
chardet = "0.2"
clap = { version = "4", features = ["derive"] }
encoding_rs = "0.8"
epub = "2"
futures = "0.3"
hound = "3.5"
html2text = "0.12"
id3 = "1"
md5 = "0.7"
mime_guess = "2"
open = "5"
regex = "1"
reqwest = { version = "0.12", default-features = false, features = ["json", "blocking", "rustls-tls"] }
serde = { version = "1", features = ["derive"] }
serde_json = "1"
tokio = { version = "1", features = ["full"] }
tokio-stream = { version = "0.1", features = ["sync"] }
tower-http = { version = "0.6", features = ["cors"] }
tracing-subscriber = "0.3"
url = "2"
walkdir = "2"
