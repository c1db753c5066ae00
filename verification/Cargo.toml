[package]
name = "csd_cleaner"
version = "0.1.0"
edition = "2021"
publish = false

[dependencies]
aho-corasick = "=1.1.5"
twox-hash = "=2.1.5"
chrono = "=0.4.45"
serde = { version = "=1.0.229", features = ["derive"] }
serde_json = "=1.0.154"
trash = "*"
