[package]
name = "whisperfish"
version = "0.6.0"
edition = "2021"
publish = false

[dependencies]
aes = "=0.7.5"
block-modes = "=0.8.1"
hmac = "=0.11.0"
sha2 = "=0.9.9"
sha-1 = "=0.9.8"
pbkdf2 = { version = "=0.8.0", default-features = false }
scrypt = { version = "=0.7.0", default-features = false }
rand = "=0.8.8"
hex = "=0.4.3"
chrono = { version = "=0.4.45", default-features = false }
phonenumber = "=0.3.10"
tokio = { version = "=1.54.1", features = ["fs", "io-util", "rt"] }
futures = "=0.3.34"
uuid = { version = "=0.8.2", features = ["v4"] }
serde = { version = "=1.0.229", features = ["derive"] }
serde_yaml = "=0.8.26"
dirs = "=3.0.2"
anyhow = "=1.0.104"
actix-threadpool = "=0.3.3"
mime = "0.3"
mime_guess = "2"
mime_classifier = "0.0.1"
