[package]
name = "giggletech_router"
version = "0.1.0"
edition = "2021"
publish = false

[dependencies]
configparser = "3"
url = "2"
async-osc = "0.2"
async-std = "1"
tokio = { version = "1", features = ["full"] }
anyhow = "1"
log = "0.4"
serde = { version = "1", features = ["derive"] }
serde_json = "1"
futures-util = "0.3"
async-trait = "0.1"
ezsockets = "0.6"
actor-lite = "*"
tracing-subscriber = "0.3"
