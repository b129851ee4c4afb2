[package]
name = "transcript_fetch"
version = "0.1.0"
edition = "2021"
publish = false

[dependencies]
scraper = "*"
reqwest = { version = "*", default-features = false }
tokio = { version = "*", features = ["macros", "rt", "time", "fs"] }
anyhow = "*"
