[package]
name = "red_panda_chat"
version = "0.1.0"
edition = "2021"
publish = false

[dependencies]
rdkafka = "*"
tokio = { version = "*", features = ["full"] }
futures-util = "*"
clap = { version = "*", features = ["derive"] }
chrono = "*"
anyhow = "*"

[dev-dependencies]
serde_json = "*"
prost = "*"
