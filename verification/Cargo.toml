[package]
name = "api_formatter"
version = "0.1.0"
edition = "2021"
publish = false

[dependencies]
serde_json = { version = "*", features = ["preserve_order"] }
readable = "*"
serde = { version = "*", features = ["derive"] }
axum = "*"
reqwest = { version = "*", default-features = false }
tokio = { version = "*", features = ["macros", "rt-multi-thread", "net"] }
confy = "*"
tracing = "*"
tracing-subscriber = "*"
