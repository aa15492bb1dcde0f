[package]
name = "pipeline_preview"
version = "0.1.0"
edition = "2021"
publish = false

[dependencies]
anyhow = "1"
async-trait = "0.1"
axum = "0.8"
axum-extra = { version = "0.10", features = ["typed-header"] }
datafusion = { version = "47", default-features = false }
dotenvy = "0.15"
envy = "0.4"
jsonwebtoken = "9"
reqwest = { version = "0.12", default-features = false, features = ["json"] }
sea-orm = { version = "1", default-features = false }
sea-orm-migration = { version = "1", default-features = false }
serde = { version = "1", features = ["derive"] }
serde_json = "1"
thiserror = "2"
tokio = { version = "1", features = ["macros", "rt-multi-thread", "net"] }
tower-http = { version = "0.6", features = ["trace"] }
tracing = "0.1"
tracing-subscriber = "0.3"
