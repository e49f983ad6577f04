[package]
name = "cissp_coach"
version = "0.1.0"
edition = "2021"
publish = false

[dependencies]
serde = { version = "=1.0.229", features = ["derive"] }
serde_json = "=1.0.154"
rand = "=0.8.8"
uuid = { version = "=1.29.0", features = ["v4"] }
chrono = { version = "=0.4.45", default-features = false, features = ["clock", "std"] }
eyre = "=0.6.14"
thiserror = "=1.0.69"
dotenvy = "=0.15.7"
tracing = "=0.1.44"
tracing-subscriber = { version = "=0.3.23", default-features = false, features = ["env-filter", "fmt", "ansi"] }
tokio = { version = "=1.54.1", features = ["rt-multi-thread", "macros", "net", "time"] }
axum = { version = "=0.7.9", default-features = false, features = ["http1", "json", "tokio", "query"] }
tower-http = { version = "=0.5.2", features = ["cors", "trace"] }
reqwest = { version = "=0.12.28", default-features = false, features = ["json", "stream", "rustls-tls"] }
async-stream = "=0.3.6"
futures-util = "=0.3.34"
rusqlite = { version = "=0.31.0", features = ["bundled"] }
r2d2 = "=0.8.10"
r2d2_sqlite = "=0.24.0"
rust-embed = { version = "=8.13.0", features = ["interpolate-folder-path"] }
mime_guess = "=2.0.5"
