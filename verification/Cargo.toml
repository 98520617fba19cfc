[package]
name = "sui_core"
version = "0.1.0"
edition = "2021"
publish = false

[dependencies]
fdlimit = "0.2"
serde = { version = "1", features = ["derive"] }
serde_json = "1"
anyhow = "1"
tokio = { version = "1", features = ["full"] }
once_cell = "1"

[dev-dependencies]
bcs = "0.1"
