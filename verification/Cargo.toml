[package]
name = "firestore_snapshot"
version = "0.1.0"
edition = "2021"
publish = false

[dependencies]
anyhow = "=1.0.104"
async-recursion = "=1.2.0"
clap = { version = "=3.2.25", features = ["derive"] }
firestore_grpc = "=0.306.0"
futures = "=0.3.34"
hyper = { version = "=0.14.32", features = ["full"] }
prost-types = "=0.9.0"
rand = "=0.8.8"
serde = { version = "=1.0.229", features = ["derive"] }
serde_json = "=1.0.154"
tokio = { version = "=1.54.1", features = ["full"] }
