[package]
name = "draffity_services"
version = "0.1.0"
edition = "2021"
publish = false

[dependencies]
base64 = "=0.22.1"
chrono = "=0.4.45"
html2md = "=0.2.17"
pulldown-cmark = { version = "=0.13.6", default-features = false, features = ["html"] }
epub-builder = "=0.8.3"
biblatex = "=0.12.0"
roxmltree = "=0.21.2"
zip = { version = "=2.6.1", default-features = false, features = ["deflate"] }
docx-rs = "=0.4.22"
scraper = "=0.29.0"
ego-tree = "=0.11.1"
serde = { version = "=1.0.229", features = ["derive"] }
serde_json = "=1.0.154"
sha2 = "=0.10.9"
dirs = "=7.0.0"
tracing = "=0.1.44"
uuid = { version = "=1.29.0", features = ["v4"] }
keyring = { version = "3", features = ["linux-native", "apple-native", "windows-native"] }
reqwest = { version = "0.12", default-features = false, features = ["blocking", "rustls-tls"] }
