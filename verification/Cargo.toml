[package]
name = "jd_core"
version = "0.1.0"
edition = "2021"
publish = false

[dependencies]
anyhow = "1"
arbitrary = "1"
clap = { version = "4", features = ["derive"] }
serde = { version = "1", features = ["derive"] }
serde_json = "1"
serde_yaml = "0.9"
thiserror = "1"
