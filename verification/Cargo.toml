[package]
name = "mqtt_dali"
version = "0.1.0"
edition = "2021"
publish = false

[dependencies]
rand = "*"
regex = "*"
serde = { version = "*", features = ["derive"] }
serde_json = "*"
rumqttc = "*"
tokio = { version = "*", features = ["macros", "rt-multi-thread", "time"] }
rustop = "*"
rppal = "*"
