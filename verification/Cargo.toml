[package]
name = "retention"
version = "0.1.0"
edition = "2021"
publish = false

[dependencies]
poise = "*"
sqlx = { version = "*", default-features = false, features = ["runtime-tokio", "postgres"] }
tokio = { version = "*", features = ["rt-multi-thread", "macros", "time"] }
tracing-subscriber = "*"
