[package]
name = "quectocraft"
version = "0.1.0"
edition = "2021"
publish = false

[dependencies]
hmac = "=0.13.0"
sha2 = "=0.11.0"
uuid = "=1.27.0"
hematite-nbt = "=0.5.2"
serde = { version = "=1.0.229", features = ["derive"] }
serde_json = "=1.0.151"
mlua = { version = "=0.12.2", features = ["lua54", "vendored", "serialize"] }
log = "=0.4.34"
env_logger = "=0.11.11"
chrono = "=0.4.45"
