[package]
name = "model_browser"
version = "0.1.0"
edition = "2021"
publish = false

[dependencies]
quick-xml = "=0.37.5"
zip = { version = "=2.6.1", default-features = false, features = ["aes-crypto", "deflate", "deflate64", "lzma", "time"] }
serde_json = "=1.0.154"
rustc-hash = "=2.1.3"
percent-encoding = "=2.3.2"
serde = { version = "=1.0.229", features = ["derive"] }
axum = "=0.8.9"
clap = { version = "=4.6.7", features = ["derive"] }
lru = "=0.12.5"
mime_guess = "=2.0.5"
open = "=5.4.5"
rust-embed = { version = "=8.13.0", features = ["interpolate-folder-path"] }
tokio = { version = "=1.54.1", features = ["full"] }
tokio-util = { version = "=0.7.20", features = ["io"] }
tower-http = { version = "=0.6.11", features = ["compression-gzip", "compression-deflate"] }
tracing = "=0.1.44"
tracing-subscriber = "=0.3.23"
