[package]
name = "rental-api"
version = "0.1.0"
edition = "2021"
publish = false

[dependencies]
validator = "*"
rand = "*"
fake = "*"
chrono = "*"
rust_decimal = "*"
serde = { version = "*", features = ["derive"] }
serde_json = "*"
sqlx = { version = "*", default-features = false, features = ["runtime-tokio", "postgres", "chrono", "rust_decimal"] }
tokio = { version = "*", features = ["macros", "rt-multi-thread"] }
actix-web = { version = "*", default-features = false, features = ["macros"] }
anyhow = "*"
thiserror = "*"
dotenvy = "*"
clap = { version = "*", features = ["derive"] }
tracing = "*"
tracing-subscriber = { version = "*", features = ["env-filter", "json"] }
