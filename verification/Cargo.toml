[package]
name = "repost_detector"
version = "0.1.0"
edition = "2021"
publish = false

[dependencies]
image = "0.23"
img_hash = "3.2"
chrono = "0.4"
serenity = "0.10"
tokio = { version = "1", features = ["macros", "rt-multi-thread"] }
reqwest = "0.11"
