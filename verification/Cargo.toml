[package]
name = "dockerops"
version = "0.1.0"
edition = "2021"
publish = false

[dependencies]
serde_yaml = "*"
md5 = "*"
serde = "*"
anyhow = "*"
chrono = "*"
futures = "*"
clap = { version = "*", features = ["derive"] }
tokio = { version = "*", features = ["macros", "rt-multi-thread", "time"] }
git2 = { version = "*", default-features = false }
bollard = "*"
