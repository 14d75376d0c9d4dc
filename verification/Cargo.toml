[package]
name = "repo_catalog"
version = "0.1.0"
edition = "2021"
publish = false

[dependencies]
chrono = "=0.4.45"
uuid = { version = "=1.27.0", features = ["v4"] }
rusqlite = { version = "=0.40.2", features = ["bundled"] }
notify = "=8.2.0"
lofty = "=0.25.4"
symphonia = "=0.5.5"
rusty-chromaprint = "=0.3.0"
zip = "=8.6.0"
base64 = "=0.23.1"
