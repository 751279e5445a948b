[package]
name = "av_catalog"
version = "0.1.0"
edition = "2021"
publish = false

[dependencies]
anyhow = "*"
clap = { version = "*", features = ["derive"] }
reqwest = { version = "*", default-features = false, features = ["cookies"] }
scraper = "*"
tokio = { version = "*", features = ["rt-multi-thread", "macros"] }
urlencoding = "*"
