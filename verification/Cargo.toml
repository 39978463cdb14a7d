[package]
name = "civiltime"
version = "0.1.0"
edition = "2021"
publish = false

[dependencies]
serde = { version = "1", features = ["derive"] }
serde_json = "1"
arbitrary = "1"
rkyv = "0.7"
