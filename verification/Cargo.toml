[package]
name = "statuspage"
version = "0.1.0"
edition = "2021"
publish = false

[dependencies]
chrono = { version = "0.4", features = ["serde"] }
pulldown-cmark = { version = "0.9", default-features = false }
reqwest = { version = "0.11", default-features = false, features = ["blocking", "json", "rustls-tls"] }
serde = { version = "1", features = ["derive"] }
serde_json = "1"
slug = "0.1"
tera = { version = "1", default-features = false }
toml = "0.5"
