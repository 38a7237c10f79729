[package]
name = "shockwave"
version = "0.1.0"
edition = "2021"
publish = false

[dependencies]
riven = "=2.81.0"
twilight-model = "=0.15.4"
twilight-gateway = "=0.15.4"
twilight-http = "=0.15.4"
sqlx = { version = "=0.8.6", default-features = false, features = ["runtime-tokio", "postgres", "json"] }
redis = { version = "=0.27.6", features = ["tokio-comp"] }
tokio = { version = "*", features = ["full"] }
futures = "*"
serde = { version = "*", features = ["derive"] }
serde_json = "*"
reqwest = { version = "=0.11.27", features = ["json"] }
rand = "=0.8.8"
