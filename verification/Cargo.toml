[package]
name = "similar_pictures"
version = "0.1.0"
edition = "2021"
publish = false

[dependencies]
bit-set = "0.5"
num-bigint = "0.4"
serde = { version = "1", features = ["derive"] }
serde_json = "1"
clap = { version = "4", features = ["derive"] }
actix-web = "4"
