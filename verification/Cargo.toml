[package]
name = "friendships"
version = "0.1.0"
edition = "2021"
publish = false

[dependencies]
actix-web = "*"
dotenv = "*"
neo4rs = "*"
serde = { version = "*", features = ["derive"] }
tracing = "*"
tracing-subscriber = "*"
