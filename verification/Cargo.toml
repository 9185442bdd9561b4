[package]
name = "plurk"
version = "0.1.0"
edition = "2021"
publish = false

[dependencies]
oauth1-request = { version = "=0.6.1", features = ["hmac-sha1"] }
serde_json = "=1.0.151"
serde = { version = "*", features = ["derive"] }
reqwest = { version = "=0.13.5", default-features = false, features = ["blocking", "multipart", "form"] }
toml = "*"
