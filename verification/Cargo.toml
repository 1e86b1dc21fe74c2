[package]
name = "mikes_crawler"
version = "0.1.0"
edition = "2021"
publish = false

[dependencies]
anyhow = "1"
base64 = "0.13"
html5ever = "0.26"
mime = "0.3"
rand = "0.8"
reqwest = "0.11"
robotstxt = "0.3"
rocket = { version = "0.5", features = ["json"] }
rocket_okapi = { version = "*", features = ["swagger"] }
schemars = "0.8"
slog = "2"
slog-scope = "4"
slog-scope-futures = "0.1"
slog-stdlog = "4"
slog-term = "2"
tokio-stream = "0.1"
url = "2"
