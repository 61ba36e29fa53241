[package]
name = "confluence"
version = "0.1.0"
edition = "2021"
publish = false

[dependencies]
addr = "=0.15.6"
serde_yaml = "=0.9.34"
anyhow = "1"
async-trait = "0.1"
axum = "0.7"
biscuit = "0.7"
chrono = "0.4"
chrono-tz = "0.10"
cron = "*"
dotenvy = "0.15"
futures = "0.3"
itertools = "*"
reqwest = { version = "0.12", default-features = false, features = ["rustls-tls"] }
sea-orm = { version = "1", default-features = false, features = ["sqlx-postgres", "runtime-tokio-rustls", "macros", "with-chrono"] }
sea-orm-migration = { version = "1", default-features = false, features = ["sqlx-postgres", "runtime-tokio-rustls"] }
serde = { version = "1", features = ["derive"] }
serde_json = "1"
thiserror = "1"
tokio = { version = "1", features = ["full"] }
tokio-cron-scheduler = "*"
tower-http = { version = "0.5", features = ["cors", "trace"] }
tracing = "0.1"
tracing-subscriber = { version = "0.3", features = ["env-filter"] }
uuid = { version = "1", features = ["v4"] }
