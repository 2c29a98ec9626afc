[package]
name = "ausawards"
version = "0.1.0"
edition = "2021"
publish = false

[dependencies]
jsonwebtoken = { version = "=11.1.0", features = ["rust_crypto"] }
pwhash = "=1.0.0"
rand = "=0.10.3"
uuid = { version = "=1.27.0", features = ["v4"] }
chrono = "=0.4.45"
serde_json = { version = "=1.0.151", features = ["raw_value"] }
serde = { version = "=1.0.229", features = ["derive"] }
serde_yaml = "=0.9.34"
reqwest = { version = "=0.13.5", default-features = false, features = ["blocking", "json"] }
