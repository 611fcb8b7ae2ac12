[package]
name = "memocache"
version = "0.1.0"
edition = "2021"
publish = false

[dependencies]
actix-web = { version = "4", default-features = false, features = ["macros", "compress-gzip"] }
actix-web-rust-embed-responder = "*"
chrono = { version = "0.4", features = ["serde"] }
derive_more = { version = "*", features = ["display", "error", "from"] }
dotenvy = "*"
env_logger = "*"
etag-actix-middleware = "*"
futures = "0.3"
redact = "*"
reqwest = { version = "*", default-features = false, features = ["rustls-tls"] }
rust-embed-for-web = "*"
rustls = "*"
serde = { version = "1", features = ["derive"] }
serde_json = "1"
url = "2"
xot = "*"
