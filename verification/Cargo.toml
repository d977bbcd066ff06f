[package]
name = "surrealdb"
version = "0.1.0"
edition = "2021"
publish = false

[dependencies]
revision = "*"
url = "*"
semver = "*"
rust_decimal = "*"
chrono = "*"
uuid = "*"
serde_json = "*"
serde = { version = "*", features = ["derive"] }
serde_urlencoded = "*"
thiserror = "*"
anyhow = "*"
http = "*"
clap = "*"
tokio = { version = "*", features = ["rt", "time", "sync", "fs"] }
