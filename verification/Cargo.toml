[package]
name = "authcore"
version = "0.1.0"
edition = "2021"
publish = false

[dependencies]
bcrypt = "=0.19.3"
jsonwebtoken = { version = "=11.1.0", features = ["rust_crypto"] }
serde = { version = "*", features = ["derive"] }
serde_json = { version = "*", features = ["raw_value"] }
axum = "*"
tokio = { version = "*", features = ["full"] }
sqlx = { version = "*", default-features = false, features = ["runtime-tokio", "postgres", "chrono", "uuid"] }
reqwest = { version = "*", default-features = false, features = ["json"] }
tower-http = { version = "*", features = ["fs"] }
dotenvy = "*"
chrono = { version = "*", features = ["serde"] }
uuid = { version = "*", features = ["serde", "v4"] }
tracing = "*"
tracing-subscriber = { version = "*", features = ["env-filter"] }
