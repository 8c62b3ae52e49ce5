[package]
name = "tuya-meter"
version = "0.1.0"
edition = "2021"
publish = false

[dependencies]
aes = "=0.8.4"
aes-gcm = "=0.10.3"
cipher = { version = "=0.4.4", features = ["block-padding", "alloc"] }
crc32fast = "=1.5.4"
ecb = "=0.1.2"
hmac = "=0.12.1"
md-5 = "=0.10.6"
rumqttc = { version = "=0.24.0", default-features = false }
serde = { version = "=1.0.229", features = ["derive"] }
serde_json = { version = "=1.0.154", features = ["preserve_order"] }
serde_yaml = "=0.9.34"
sha2 = "=0.10.9"
