[package]
name = "agent_memory"
version = "0.1.0"
edition = "2021"
publish = false

[dependencies]
lru = "*"
uuid = { version = "*", features = ["v4"] }
chrono = "*"
urlencoding = "*"
serde = { version = "*", features = ["derive"] }
serde_json = "*"
reqwest = { version = "*", default-features = false, features = ["json", "rustls-tls"] }
tokio = { version = "*", features = ["macros", "rt-multi-thread"] }
futures = "*"
anyhow = "*"
qdrant-client = "*"
