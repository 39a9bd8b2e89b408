[package]
name = "cndb"
version = "0.3.0"
edition = "2021"
publish = false

[dependencies]
bincode = "1"
bson = "2"
crc32fast = "1"
serde = { version = "1", features = ["derive"] }
serde_json = "1"
thiserror = "1"
