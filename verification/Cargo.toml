[package]
name = "bit_rest_client"
version = "0.1.0"
edition = "2021"
publish = false

[dependencies]
chrono = "0.4"
hex = "0.4"
hmac = "0.12"
serde_json = "1"
sha2 = "0.10"
reqwest = { version = "0.12", default-features = false }
