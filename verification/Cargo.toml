[package]
name = "asr_rs"
version = "0.1.0"
edition = "2021"
publish = false

[dependencies]
whisper-rs = "*"
serde = { version = "1", features = ["derive"] }
thiserror = "*"
log = "*"
colored = "*"
ureq = "*"
indicatif = "*"
tokio = { version = "1", features = ["sync"] }
cpal = "*"
ratatui = "*"
anyhow = "*"
