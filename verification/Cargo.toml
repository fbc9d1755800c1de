[package]
name = "landing"
version = "0.1.0"
edition = "2021"
publish = false

[dependencies]
anyhow = "1"
axum = "0.8"
futures = "0.3"
http = "1"
minijinja = "2"
notify = "8"
pin-project-lite = "0.2"
regex = "1"
serde = { version = "1", features = ["derive"] }
tailwind-css = "*"
thiserror = "2"
tokio = { version = "1", features = ["full"] }
toml = "0.8"
tower = { version = "0.5", features = ["util"] }
tower-http = { version = "0.6", features = ["fs"] }
tracing = "0.1"
tracing-subscriber = "0.3"
