[package]
name = "simple_disk_cache"
version = "0.1.0"
edition = "2021"
publish = false

[dependencies]
bincode = "1"
serde_json = "1"
