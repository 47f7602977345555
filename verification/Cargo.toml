[package]
name = "twse_announcements"
version = "0.1.0"
edition = "2021"
publish = false

[dependencies]
scraper = "*"
anyhow = "*"
axum = "0.7"
bson = "2"
chrono = "0.4"
clap = { version = "4", features = ["derive"] }
mongodb = "2"
reqwest = { version = "0.12", default-features = false, features = ["rustls-tls"] }
serde = { version = "1", features = ["derive"] }
serde_json = "1"
tokio = { version = "1", features = ["macros", "rt-multi-thread"] }
tower-http = { version = "0.5", features = ["cors", "fs"] }
