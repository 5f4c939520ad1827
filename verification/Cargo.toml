[package]
name = "deckauth"
version = "0.1.0"
edition = "2021"
publish = false

[dependencies]
bcrypt = "=0.19.3"
chrono = "=0.4.45"
dotenv = "=0.15.0"
jsonwebtoken = { version = "=11.1.0", features = ["rust_crypto"] }
rocket = { version = "=0.5.1", features = ["json"] }
sqlx = { version = "=0.9.0", default-features = false, features = ["runtime-tokio", "postgres"] }
uuid = { version = "=1.27.0", features = ["v4"] }

[dev-dependencies]
serde_json = "=1.0.151"
