[package]
name = "oxlens-sfu"
version = "0.5.0"
edition = "2021"
publish = false

[dependencies]
async-trait = "=0.1.92"
axum = { version = "=0.7.9", features = ["ws"] }
bytes = "=1.12.1"
chrono = "=0.4.45"
crc32fast = "=1.5.4"
dashmap = "=6.2.1"
dotenvy = "=0.15.7"
dtls = "=0.17.2"
getrandom = "=0.3.4"
hmac = "=0.12.1"
serde = { version = "=1.0.229", features = ["derive"] }
serde_json = "=1.0.154"
sha1 = "=0.10.7"
sha2 = "=0.10.9"
socket2 = { version = "=0.5.10", features = ["all"] }
thiserror = "=1.0.69"
tokio = { version = "=1.54.1", features = ["full"] }
tokio-util = "=0.7.20"
tracing = "=0.1.44"
tracing-appender = "=0.2.5"
tracing-subscriber = { version = "=0.3.23", features = ["env-filter"] }
uuid = { version = "=1.29.0", features = ["v4"] }
webrtc-srtp = "=0.17.2"
webrtc-util = "=0.17.2"
