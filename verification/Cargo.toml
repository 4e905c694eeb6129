[package]
name = "mediaforge"
version = "0.1.0"
edition = "2021"
publish = false

[dependencies]
image = "=0.25.10"
serde = { version = "=1.0.229", features = ["derive"] }
serde_json = "*"
tokio = { version = "=1.53.2", features = ["full"] }
axum = { version = "=0.8.9", features = ["multipart"] }
tower-http = { version = "=0.7.1", features = ["cors"] }
hyper = "=1.12.0"
sqlx = { version = "=0.9.0", default-features = false, features = ["runtime-tokio", "postgres", "uuid", "chrono", "json", "migrate", "derive"] }
redis = { version = "=1.7.1", features = ["tokio-comp", "connection-manager"] }
uuid = { version = "=1.27.0", features = ["v4", "serde"] }
chrono = { version = "=0.4.45", features = ["serde"] }
bcrypt = "=0.19.3"
jsonwebtoken = "=11.1.0"
tracing = "=0.1.44"
tracing-subscriber = { version = "=0.3.23", features = ["env-filter"] }
anyhow = "=1.0.104"
dotenv = "=0.15.0"
