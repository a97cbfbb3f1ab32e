[package]
name = "uwb_telemetry"
version = "0.1.0"
edition = "2021"
publish = false

[dependencies]
rumqttc = "*"
metrics = "*"

[dev-dependencies]
serde_json = "*"
