[package]
name = "chat_gateway"
version = "0.1.0"
edition = "2021"
publish = false

[dependencies]
flate2 = "*"
serde = { version = "*", features = ["derive"] }
serde_json = "*"
tokio = { version = "*", features = ["full"] }
axum = { version = "*", features = ["ws"] }
redis = { version = "*", features = ["tokio-comp"] }
sqlx = { version = "*", features = ["runtime-tokio", "postgres", "chrono"] }
futures = "*"
chrono = { version = "*", features = ["serde"] }
cuid = "*"
once_cell = "*"
dotenvy = "*"
tower = "*"
tower-http = { version = "*", features = ["cors"] }
argon2 = "*"
jsonwebtoken = "*"
