[package]
name = "skillsync"
version = "0.1.0"
edition = "2021"
publish = false

[dependencies]
md5 = "*"
uuid = { version = "*", features = ["v4"] }
chrono = "*"
dirs = "*"
serde = { version = "*", features = ["derive"] }
serde_json = "*"
serde_yaml = "*"
reqwest = { version = "*", default-features = false, features = ["blocking", "rustls-tls"] }
