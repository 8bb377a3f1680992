[package]
name = "llm_client"
version = "0.1.0"
edition = "2021"
publish = false

[dependencies]
anyhow = "1"
async-openai = { version = "0.27", default-features = false, features = ["rustls-webpki-roots"] }
chrono = { version = "0.4", default-features = false, features = ["now", "serde", "std"] }
eframe = { version = "0.30", default-features = false, features = ["glow", "x11"] }
futures = "0.3"
serde = { version = "1", features = ["derive"] }
serde_json = "1"
tokio = { version = "1", features = ["rt-multi-thread", "sync"] }
tracing = "0.1"
tracing-subscriber = { version = "0.3", default-features = false, features = ["fmt", "env-filter", "std"] }
uuid = { version = "1", features = ["v4"] }
