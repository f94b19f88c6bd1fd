[package]
name = "jobcrawl"
version = "0.1.0"
edition = "2021"
publish = false

[dependencies]
scraper = "*"
regex = "*"
reqwest = { version = "*", default-features = false, features = ["rustls-tls", "multipart"] }
tokio = { version = "*", features = ["rt-multi-thread", "macros"] }
clap = { version = "*", features = ["derive", "env"] }
anyhow = "*"
