[package]
name = "emote_pipeline"
version = "0.1.0"
edition = "2021"
publish = false

[dependencies]
axum = "*"
tokio = { version = "*", features = ["rt-multi-thread", "macros", "net"] }
redis = { version = "*", default-features = false, features = ["tokio-comp"] }
sqlx = { version = "*", default-features = false, features = ["runtime-tokio", "postgres", "chrono", "macros"] }
reqwest = { version = "*", default-features = false, features = ["json"] }
serde = { version = "*", features = ["derive"] }
serde_json = "*"
azure_storage = "*"
azure_storage_blobs = "*"
futures = "*"
chrono = { version = "*", features = ["serde"] }
dotenvy = "*"
tracing = "*"
tracing-subscriber = "*"
