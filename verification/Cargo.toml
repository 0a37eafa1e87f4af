[package]
name = "cosmic_speech_to_text"
version = "0.1.0"
edition = "2021"
publish = false

[dependencies]
serde = { version = "1", features = ["derive"] }
serde_json = "1"
directories = "5"
tokio = { version = "1", features = ["process", "rt", "macros"] }
reqwest = { version = "0.12", default-features = false, features = ["json", "multipart", "rustls-tls"] }
cpal = "0.15"
hound = "3"
uuid = { version = "1", features = ["v4"] }
