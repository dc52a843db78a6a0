[package]
name = "catscii"
version = "0.1.0"
edition = "2021"
publish = false

[dependencies]
artem = "*"
image = "*"
axum = "*"
tokio = { version = "*", features = ["macros", "rt-multi-thread", "signal", "net"] }
reqwest = { version = "*", default-features = false }
tracing = "*"
tracing-subscriber = { version = "*", features = ["fmt", "json"] }
