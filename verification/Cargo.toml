[package]
name = "vueko"
version = "0.1.0"
edition = "2021"
publish = false

[dependencies]
anyhow = "1"
axum = "0.7"
diesel = { version = "2", default-features = false, features = ["postgres_backend", "uuid"] }
diesel-async = { version = "*", features = ["postgres", "bb8", "async-connection-wrapper"] }
diesel_migrations = "2"
eyre = "0.6"
serde = { version = "1", features = ["derive"] }
tmi = "*"
tokio = { version = "1", features = ["rt-multi-thread", "macros", "net"] }
toml = "0.8"
tracing = "0.1"
tracing-subscriber = "0.3"
uuid = { version = "1", features = ["v7"] }
