[package]
name = "kachiclash"
version = "0.1.0"
edition = "2021"
publish = false

[dependencies]
chrono = "0.4"
hmac-sha256 = "1"
regex = "1"
url = "2"
slug_intl = "*"
itertools = "*"
serde = { version = "1", features = ["derive"] }
serde_json = "1"
anyhow = "1"
log = "0.4"
rusqlite = { version = "*", features = ["bundled", "chrono"] }
