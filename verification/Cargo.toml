[package]
name = "trove_collector"
version = "0.1.0"
edition = "2021"
publish = false

[dependencies]
anyhow = "1"
chrono = "0.4"
core-foundation = "0.9"
dirs = "5"
libc = "0.2"
objc2 = "0.5"
serde = { version = "1", features = ["derive"] }
serde_json = "1"
ureq = "2"
