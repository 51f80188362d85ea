[package]
name = "puppet_forge_updates"
version = "0.1.0"
edition = "2021"
publish = false

[dependencies]
colored = "2"
serde_json = "1"
reqwest = { version = "0.12", default-features = false, features = ["blocking", "rustls-tls"] }
