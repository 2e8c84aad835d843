[package]
name = "obadh_engine"
version = "0.5.0"
edition = "2021"
publish = false

[dependencies]
memmap2 = "*"
serde = { version = "1", features = ["derive"] }
serde_json = "1"
sha2 = "*"
