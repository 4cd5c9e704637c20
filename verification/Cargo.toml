[package]
name = "todo_core"
version = "0.1.0"
edition = "2021"
publish = false

[dependencies]
jwt-simple = { version = "=0.15.0", default-features = false, features = ["pure-rust"] }
base64 = "=0.23.1"
password-auth = "=1.0.0"
serde = { version = "=1.0.229", features = ["derive"] }
axum = "=0.6.20"
tokio = { version = "=1.53.2", features = ["macros", "rt-multi-thread"] }
tower-http = { version = "=0.4.4", features = ["cors"] }
dotenvy = "=0.15.7"
