[package]
name = "odak"
version = "0.1.0"
edition = "2021"
publish = false

[dependencies]
uuid = { version = "=1.29.0", features = ["v4", "serde"] }
chrono = { version = "=0.4.45", features = ["serde"] }
url = "=2.5.8"
sha2 = "=0.10.9"
base64 = "=0.22.1"
serde = { version = "=1.0.229", features = ["derive"] }
serde_json = "=1.0.154"
pulldown-cmark = { version = "=0.13.6", default-features = false }
unicode-segmentation = "=1.13.3"
ureq = { version = "=3.5.1", features = ["json"] }
tungstenite = { version = "=0.30.0", features = ["rustls-tls-webpki-roots"] }
