[package]
name = "ping_uin"
version = "0.1.0"
edition = "2021"
publish = false

[dependencies]
regex = "1"
sha2 = "0.10"
serde = { version = "1", features = ["derive"] }
serde_json = "1"
chrono = "0.4"
crossterm = "0.28"
ratatui = "0.29"
csv = "1"
dirs = "6"
flate2 = "1"
tar = "0.4"
ureq = "2"
zip = { version = "2", default-features = false, features = ["deflate"] }
