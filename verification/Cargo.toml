[package]
name = "speedwayrs"
version = "0.1.0"
edition = "2021"
publish = false

[dependencies]
scraper = "*"
serde = { version = "*", features = ["derive"] }
serde_json = "*"
time = "*"
clap = { version = "*", features = ["derive"] }
reqwest = { version = "*", default-features = false, features = ["blocking", "rustls-tls"] }
threadpool = "*"
anyhow = "*"
sqlx = { version = "*", default-features = false, features = ["runtime-tokio", "postgres", "time"] }
tokio = { version = "*", features = ["rt-multi-thread"] }
