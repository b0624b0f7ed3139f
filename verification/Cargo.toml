[package]
name = "amp-rs"
version = "0.1.0"
edition = "2021"
publish = false

[dependencies]
rusqlite = { version = "0.31", features = ["bundled"] }
serde = { version = "1", features = ["derive"] }
serde_json = "1"
chrono = { version = "0.4", features = ["serde"] }
uuid = { version = "1", features = ["v4"] }
clap = { version = "4", features = ["derive"] }
ignore = "0.4"
notify = "6"
notify-debouncer-mini = "0.4"
tokio = { version = "1", features = ["full"] }
axum = "0.7"
tower-http = { version = "0.5", features = ["cors"] }
tracing = "0.1"
tracing-subscriber = { version = "0.3", features = ["env-filter"] }
shellexpand = "3"
thiserror = "1"
anyhow = "1"
bytemuck = "1"
tokenizers = { version = "0.19", default-features = false, features = ["onig"] }
ort = { version = "2.0.0-rc.9", default-features = false }

[dev-dependencies]
tempfile = "3"
