[package]
name = "jsonstore"
version = "0.1.0"
edition = "2021"
publish = false

[dependencies]
argon2 = "=0.5.3"
chacha20poly1305 = "=0.10.1"
chrono = { version = "0.4", default-features = false, features = ["clock"] }
rand = "=0.8.8"
rusqlite = "=0.31.0"
serde_json = "=1.0.154"
uuid = { version = "=1.29.0", features = ["v4"] }
zip = { version = "=0.6.6", default-features = false, features = ["deflate"] }
