[package]
name = "correlation_bridge"
version = "0.1.0"
edition = "2021"
publish = false

[dependencies]
lru = { version = "=0.18.5", default-features = false }
uuid = { version = "=1.27.0", features = ["v4"] }
rdkafka = "=0.39.0"
tokio = { version = "=1.53.2", features = ["rt-multi-thread", "macros"] }
log = "=0.4.34"
env_logger = "=0.11.11"

[dev-dependencies]
serde_json = "=1.0.151"
