[package]
name = "tarot_bot"
version = "0.1.0"
edition = "2021"
publish = false

[dependencies]
serde_json = "1"
rand = "0.9"
axum = "0.8"
tokio = { version = "1", default-features = false, features = ["rt-multi-thread", "macros", "net"] }
reqwest = { version = "0.12", default-features = false, features = ["json"] }
tracing = "0.1"
tracing-subscriber = "0.3"
dotenv = "0.15"
walkdir = "2"
