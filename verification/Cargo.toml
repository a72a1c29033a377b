[package]
name = "relay"
version = "0.1.0"
edition = "2021"
publish = false

[dependencies]
rusqlite = { version = "*", features = ["bundled"] }
serde = { version = "*", features = ["derive"] }
serde_json = "*"
actix = "*"
actix-web = "*"
actix-web-actors = "*"
actix-cors = "*"
