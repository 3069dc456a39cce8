[package]
name = "chat_data"
version = "0.1.0"
edition = "2021"
publish = false

[dependencies]
serde = { version = "*", features = ["derive"] }
uuid = { version = "*", features = ["serde"] }
sqlx = { version = "*", default-features = false, features = ["mysql", "runtime-tokio", "derive"] }
