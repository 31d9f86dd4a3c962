[package]
name = "vertretung"
version = "0.1.0"
edition = "2021"
publish = false

[dependencies]
chrono = "=0.4.45"
prettytable-rs = { version = "=0.10.0", default-features = false }
scraper = { version = "=0.15.0", features = ["deterministic"] }
serde = { version = "=1.0.229", features = ["derive"] }
serde_json = "=1.0.154"
reqwest = { version = "=0.11.27", features = ["json"] }
tokio = { version = "=1.54.1", features = ["full"] }
serenity = "=0.11.7"
sqlx = { version = "=0.6.3", features = ["runtime-tokio-rustls", "postgres"] }
tracing = "=0.1.44"
