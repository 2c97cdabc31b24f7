[package]
name = "courses"
version = "0.1.0"
edition = "2021"
publish = false

[dependencies]
pulldown-cmark = { version = "0.13", default-features = false, features = ["html"] }
toml = "0.8"
serde = { version = "1", features = ["derive"] }
serde_json = "1"
thiserror = "2"
axum = "0.8"
tokio = { version = "1", features = ["full"] }
tokio-stream = { version = "0.1", features = ["sync"] }
tracing = "0.1"
tracing-subscriber = { version = "0.3", features = ["env-filter"] }
clap = { version = "4", features = ["derive", "env"] }
color-eyre = "0.6"
include_dir = "0.7"
notify = "8"
duct = "0.13"
reqwest = { version = "0.12", default-features = false, features = ["rustls-tls"] }
aws-config = "1"
aws-sdk-dynamodb = "1"
aws-sdk-cloudwatch = "1"
