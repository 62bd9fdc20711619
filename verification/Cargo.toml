[package]
name = "rusty_spotted_cat"
version = "0.1.0"
edition = "2021"
publish = false

[dependencies]
async-trait = "0.1"
md5 = "0.7"
reqwest = { version = "0.12", default-features = false, features = ["multipart"] }
serde = { version = "1", features = ["derive"] }
serde_json = "1"
tokio = { version = "1", features = ["full"] }
tokio-util = "0.7"
uuid = { version = "1", features = ["v4", "v7"] }
