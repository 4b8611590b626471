[package]
name = "transecho"
version = "0.1.0"
edition = "2021"
publish = false

[dependencies]
prost = "0.13"
serde = { version = "1", features = ["derive"] }
tokio = { version = "1", features = ["rt-multi-thread", "sync", "time", "macros"] }
tokio-tungstenite = "0.26"
futures-util = "0.3"
http = "1"
uuid = { version = "1", features = ["v4"] }
tracing = "0.1"
rubato = "0.16"
cpal = "0.15"
soundtouch = "0.4"
screencapturekit = "1"
