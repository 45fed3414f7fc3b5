[package]
name = "ytdlp_gui"
version = "0.1.0"
edition = "2021"
publish = false

[dependencies]
serde = { version = "1", features = ["derive"] }
serde_json = "1"
shell-words = "1"
reqwest = { version = "0.12", default-features = false, features = ["blocking", "json"] }
