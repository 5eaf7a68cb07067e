[package]
name = "spicedb-rs-client"
version = "1.53.0"
edition = "2021"
publish = false

[dependencies]
tonic = "=0.14.9"
http = "=1.5.0"
thiserror = "=2.0.21"
anyhow = "=1.0.104"
clap = { version = "=4.6.7", features = ["derive"] }
serde = { version = "=1.0.229", features = ["derive"] }
serde_yaml_ng = "=0.10.0"
walkdir = "=2.5.0"

[dev-dependencies]
tokio = { version = "=1.54.1", features = ["rt"] }
