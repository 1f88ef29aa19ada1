[package]
name = "maerbooru"
version = "0.1.0"
edition = "2021"
publish = false

[dependencies]
sha2 = "0.10"
surrealdb = { version = "1", default-features = false, features = ["protocol-ws"] }
tokio = { version = "1", features = ["rt-multi-thread", "macros", "fs", "io-util"] }
serde = { version = "1", features = ["derive"] }
anyhow = "1"
chrono = { version = "0.4", features = ["serde"] }
mime = "0.3"
bytes = "1"
