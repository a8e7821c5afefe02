[package]
name = "auth_core"
version = "0.1.0"
edition = "2021"
publish = false

[dependencies]
anyhow = "*"
axum = "*"
axum-extra = { version = "*", features = ["typed-header"] }
bcrypt = "=0.19.3"
chrono = { version = "=0.4.45", default-features = false, features = ["clock"] }
getrandom = "=0.3.4"
jsonwebtoken = "=9.3.1"
serde = { version = "*", features = ["derive"] }
serde_json = "*"
sqlx = { version = "*", default-features = false, features = ["mysql", "runtime-tokio", "chrono"] }
tokio = { version = "*", features = ["rt-multi-thread", "macros", "net"] }
tracing-subscriber = "*"
