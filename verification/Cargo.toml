[package]
name = "agent_core"
version = "0.1.0"
edition = "2021"
publish = false

[dependencies]
serde = { version = "1", features = ["derive"] }
serde_json = "1"
uuid = { version = "1", features = ["v4", "serde"] }
thiserror = "*"
futures = "0.3"
reqwest = { version = "*", default-features = false, features = ["blocking", "json"] }
uniffi = "*"
