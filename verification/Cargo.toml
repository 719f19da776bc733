[package]
name = "h2gb"
version = "0.1.0"
edition = "2021"
publish = false

[dependencies]
bimap = "0.6"
csv = "1"
macaddr = "1"
ron = "0.7"
serde = { version = "1", features = ["derive"] }
serde_json = "1"
serde_yaml = "0.8"
uuid = "0.8"
walkdir = "2"
