[package]
name = "tlgen"
version = "0.1.0"
edition = "2021"
publish = false

[dependencies]
crc32fast = "1"
serde = { version = "1", features = ["derive"] }
serde_json = "1"
log = "0.4"
once_cell = "1"
futures-channel = "0.3"
tokio = { version = "1", features = ["sync"] }
uuid = { version = "1", features = ["v4"] }
