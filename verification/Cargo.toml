[package]
name = "lang_translate"
version = "0.1.0"
edition = "2021"
publish = false

[dependencies]
reqwest = { version = "=0.13.5", features = ["query"] }
serde_json = { version = "=1.0.154", features = ["preserve_order"] }
sha256 = "=1.6.0"
tokio = { version = "=1.54.1", features = ["rt-multi-thread"] }
uuid = { version = "=1.29.0", features = ["v4"] }
