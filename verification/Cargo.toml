[package]
name = "svar"
version = "0.1.0"
edition = "2021"
publish = false

[dependencies]
anyhow = "1"
crossterm = { version = "0.28", features = ["event-stream"] }
futures-util = "0.3"
ratatui = "0.29"
reqwest = { version = "0.12", default-features = false, features = ["json", "rustls-tls"] }
serde = { version = "1", features = ["derive"] }
tokio = { version = "1", features = ["macros", "rt-multi-thread", "time", "sync"] }
urlencoding = "2"
zbus = { version = "5", default-features = false, features = ["tokio"] }
