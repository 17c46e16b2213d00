[package]
name = "clawpanel"
version = "0.9.0"
edition = "2021"
publish = false

[dependencies]
serde = { version = "1", features = ["derive"] }
serde_json = "1"
chrono = "0.4"
dirs = "5"
reqwest = { version = "0.12", default-features = false, features = ["json"] }
tokio = { version = "1", features = ["process", "rt", "macros"] }
zip = { version = "2", default-features = false, features = ["deflate"] }
