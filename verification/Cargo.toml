[package]
name = "authstore"
version = "0.1.0"
edition = "2021"
publish = false

[dependencies]
uuid = { version = "*", features = ["v4"] }
chrono = "*"
serde = { version = "*", features = ["derive"] }
serde_json = "*"
axum = "*"
hyper = "*"
cookie = "*"
time = "*"
tower-sessions = { version = "*", features = ["memory-store"] }
sqlx = { version = "*", default-features = false, features = ["postgres", "runtime-tokio"] }
