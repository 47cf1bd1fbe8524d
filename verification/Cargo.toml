[package]
name = "multi_contas"
version = "0.1.0"
edition = "2021"
publish = false

[dependencies]
argon2 = "0.5"
chrono = "0.4"
jsonwebtoken = "9"
rand = "0.8"
reqwest = { version = "0.12", default-features = false, features = ["blocking", "json", "rustls-tls"] }
serde = { version = "1", features = ["derive"] }
serde_json = "1"
tiny_http = "0.12"
totp-rs = { version = "5", features = ["otpauth", "gen_secret"] }
tungstenite = "0.24"
url = "2"
uuid = { version = "1", features = ["v4"] }
