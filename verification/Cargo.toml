[package]
name = "bot"
version = "0.1.0"
edition = "2021"
publish = false

[dependencies]
anyhow = "1"
deadpool-postgres = "0.10"
dotenv = "0.15"
futures = "0.3"
lazy_static = "1"
rs-pixel = "*"
serde = { version = "1", features = ["derive"] }
serde_json = "1"
surf = "2"
tokio = { version = "1", features = ["macros", "rt-multi-thread", "sync"] }
tokio-postgres = "0.7"
twilight-gateway = "0.14"
twilight-http = "0.14"
twilight-model = "0.14"
twilight-util = { version = "0.14", features = ["builder"] }
