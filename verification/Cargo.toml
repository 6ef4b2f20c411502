[package]
name = "cyberweaver"
version = "0.1.0"
edition = "2021"
publish = false

[dependencies]
uuid = { version = "1", features = ["v4", "v5"] }
serde = { version = "1", features = ["derive"] }
serde_json = "1"
thiserror = "2"
libloading = "0.8"
tokio = { version = "1", features = ["rt-multi-thread", "macros", "sync", "net"] }
tracing = "0.1"
reqwest = { version = "0.12", default-features = false, features = ["json", "rustls-tls"] }
axum = { version = "0.8", features = ["ws"] }
