[package]
name = "litecord_backend"
version = "0.1.0"
edition = "2021"
publish = false

[dependencies]
aes-gcm = "0.10"
base64 = "0.22"
chrono = "0.4"
hmac = "0.12"
sha2 = "0.10"
jwt = "0.16"
rand = "0.8"
uuid = { version = "1", features = ["v4"] }
serde = { version = "1", features = ["derive"] }
serde_json = "1"
rocket = { version = "0.5", features = ["json"] }
rocket_ws = "0.1"
dotenvy = "0.15"

[dev-dependencies]
