[package]
name = "estuary"
version = "0.1.0"
edition = "2021"
publish = false

[dependencies]
argon2 = "=0.6.0"
base64 = "=0.13.1"
getrandom = "*"
actix-web = "4"
actix-session = { version = "0.7", features = ["cookie-session"] }
sqlx = { version = "0.7", features = ["runtime-tokio-rustls", "any", "postgres"] }
serde = { version = "1", features = ["derive"] }
serde_json = "1"
futures = "0.3"
log = "0.4"
env_logger = "0.9"
dotenv = "0.15"
