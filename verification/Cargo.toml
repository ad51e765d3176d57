[package]
name = "rinha_ledger"
version = "0.1.0"
edition = "2021"
publish = false

[dependencies]
time = { version = "=0.3.55", features = ["std", "formatting"] }
fastrand = "=2.5.0"
httparse = "=1.10.1"
memchr = "=2.8.3"
regex-lite = "=0.1.9"
serde = { version = "=1.0.229", features = ["derive"] }
serde_json = "=1.0.151"
