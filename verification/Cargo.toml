[package]
name = "game_client"
version = "0.1.0"
edition = "2021"
publish = false

[dependencies]
aws-config = { version = "1", default-features = false, features = ["rt-tokio"] }
aws-sdk-dynamodb = { version = "1", default-features = false, features = ["rt-tokio"] }
tokio = { version = "1", features = ["rt-multi-thread"] }
