[package]
name = "glimpse-speech"
version = "1.4.7"
edition = "2021"
publish = false

[dependencies]
anyhow = "1"
axum = { version = "0.8", features = ["multipart"] }
base64 = "0.22"
clap = { version = "4", features = ["derive", "env"] }
directories = "*"
flacenc = "*"
hound = "3"
httpdate = "1"
libc = "0.2"
parakeet-rs = "*"
reqwest = { version = "0.12", default-features = false, features = ["json", "multipart", "stream", "rustls-tls"] }
serde = { version = "1", features = ["derive"] }
serde_json = "1"
sha2 = "0.10"
tokio = { version = "1", features = ["full"] }
tokio-util = { version = "0.7", features = ["io"] }
tower-http = { version = "*", features = ["cors"] }
tracing = "0.1"
whisper-rs = "*"
transcribe-cpp = "*"
fm-rs = "*"
