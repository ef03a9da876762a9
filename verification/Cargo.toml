[package]
name = "habr_reader"
version = "0.1.0"
edition = "2021"
publish = false

[dependencies]
scraper = { version = "=0.29.0", default-features = false }
ego-tree = "=0.11.1"
chrono = "=0.4.45"
image = { version = "=0.25.10", default-features = false, features = ["png", "jpeg", "gif", "webp", "bmp", "ico"] }
reqwest = { version = "=0.12.28", default-features = false, features = ["rustls-tls"] }
tokio = { version = "=1.54.1", features = ["rt-multi-thread"] }
serde = { version = "=1.0.229", features = ["derive"] }
serde_json = "=1.0.154"
