[package]
name = "russtly"
version = "0.1.0"
edition = "2021"
publish = false

[dependencies]
chrono = { version = "0.4", default-features = false, features = ["std"] }
rss = { version = "2", default-features = false }
log = "0.4"
tokio = { version = "1", features = ["rt-multi-thread", "fs", "io-util", "sync"] }
tokio-util = { version = "0.7", features = ["io"] }
reqwest = { version = "0.12", default-features = false }
rusqlite = { version = "0.31", features = ["bundled"] }
rodio = { version = "0.19", default-features = false, features = ["mp3"] }
image = { version = "0.24", default-features = false, features = ["png"] }
