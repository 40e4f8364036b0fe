[package]
name = "telemetry_bridge"
version = "0.1.0"
edition = "2021"
publish = false

[dependencies]
dotenvy = "0.15"
futures-util = "0.3"
paho-mqtt = "*"
rand = "0.8"
rdkafka = "*"
serde = { version = "1", features = ["derive"] }
serde_json = "1"
tokio = { version = "1", features = ["macros", "rt-multi-thread", "time"] }
