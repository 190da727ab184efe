[package]
name = "oxidesfu_media"
version = "0.1.0"
edition = "2021"
publish = false

[dependencies]
livekit-protocol = "*"
rtc = "*"
serde = { version = "1", features = ["derive"] }
serde_json = "1"
tokio = { version = "1", features = ["sync", "rt"] }
