[package]
name = "bqg_epub"
version = "0.1.0"
edition = "2021"
publish = false

[dependencies]
clap = { version = "=4.6.7", features = ["derive"] }
epub-builder = "=0.7.4"
futures = "=0.3.34"
rand = "=0.8.8"
reqwest = "=0.12.28"
scraper = "=0.19.1"
serde = { version = "=1.0.229", features = ["derive"] }
serde_json = "=1.0.154"
tokio = { version = "=1.54.1", features = ["macros", "rt-multi-thread", "time"] }
url = "=2.5.8"

[dev-dependencies]
zip = { version = "=0.6.6", default-features = false, features = ["deflate"] }
