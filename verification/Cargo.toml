[package]
name = "dipspp"
version = "0.1.0"
edition = "2021"
publish = false

[dependencies]
hex = "0.4"
serde = { version = "1", features = ["derive"] }
serde_json = "1"
uuid = { version = "1", features = ["v4", "v7", "serde"] }
chrono = { version = "0.4", features = ["serde"] }
log = "0.4"
env_logger = "0.11"
dotenv = "0.15"
tokio = { version = "1", features = ["full"] }
sqlx = { version = "0.8", default-features = false, features = ["runtime-tokio", "postgres", "uuid", "chrono", "json", "bigdecimal"] }
warp = { version = "0.3", default-features = false }
thiserror = "1"
miette = "7"
lazy_static = "1"
num-traits = "0.2"
hostname = "0.4"
base64 = "0.22"
tokio-util = "0.7"
tokio-stream = { version = "0.1", features = ["net"] }
tokio-graceful-shutdown = "*"
reqwest = { version = "0.12", default-features = false, features = ["json", "rustls-tls"] }
rustls-acme = "*"
