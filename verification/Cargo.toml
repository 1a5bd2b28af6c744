[package]
name = "zkp_login"
version = "0.1.0"
edition = "2021"
publish = false

[dependencies]
p256 = { version = "=0.13.2", default-features = false, features = ["arithmetic"] }
sha2 = { version = "=0.10.9", default-features = false }
anyhow = "1"
axum = "0.7"
clap = { version = "4", features = ["derive", "env"] }
dotenv = "0.15"
serde = { version = "1", features = ["derive"] }
serde_json = "1"
sqlx = { version = "0.7", default-features = false, features = ["runtime-tokio", "sqlite", "migrate"] }
thiserror = "1"
tokio = { version = "1", features = ["full"] }
tower-http = { version = "0.5", features = ["fs"] }
tracing = "0.1"
tracing-subscriber = { version = "0.3", features = ["env-filter"] }
