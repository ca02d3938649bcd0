[package]
name = "kvs"
version = "0.1.0"
edition = "2021"

[dependencies]
anyhow = "1"
bson = "2"
clap = "3"
serde = { version = "1", features = ["derive"] }
