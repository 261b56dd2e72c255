[package]
name = "bitpart"
version = "0.1.0"
edition = "2021"
publish = false

[dependencies]
serde = { version = "1", features = ["derive"] }
serde_json = "1"
uuid = "1"
regex = "1"
rand = "0.8"
base64 = "0.22"
md-5 = "0.10"
sha2 = "0.10"
chrono = "0.4"
bincode = "1"
csml_interpreter = "*"
