[package]
name = "hulykvs"
version = "0.1.0"
edition = "2021"
publish = false

[dependencies]
dashmap = "*"
base64-url = "*"
md5 = "*"
uuid = "*"
hex = "*"
serde = { version = "*", features = ["derive"] }
serde_json = "*"
tokio = { version = "*", features = ["full"] }
actix-web = "*"
actix-cors = "*"
tokio-postgres = "*"
bb8 = "*"
bb8-postgres = "*"
jsonwebtoken = "*"
anyhow = "*"
