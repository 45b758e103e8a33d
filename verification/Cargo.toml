[package]
name = "xiao-epaper"
version = "0.1.0"
edition = "2021"
publish = false

[dependencies]
image = { version = "0.25", default-features = false, features = ["png", "jpeg", "gif", "bmp", "webp"] }
chrono = "0.4"
imageproc = { version = "0.25", default-features = false }
ab_glyph = "0.2"
axum = "0.8"
tokio = { version = "1", features = ["rt-multi-thread", "macros", "net"] }
reqwest = { version = "0.12", default-features = false, features = ["blocking", "json", "rustls-tls"] }
serde = { version = "1", features = ["derive"] }
eyre = "0.6"
tracing = "0.1"
tracing-subscriber = "0.3"
embedded-graphics = "0.8"
embedded-hal = "1"
