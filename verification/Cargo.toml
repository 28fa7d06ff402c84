[package]
name = "cufe_course"
version = "2.7.2"
edition = "2021"
publish = false

[dependencies]
base64 = "0.22"
chrono = "0.4"
serde = { version = "1", features = ["derive"] }
serde_json = "1"
reqwest = { version = "0.12", default-features = false, features = ["json", "rustls-tls"] }
tauri = { version = "2", default-features = false }
jni = "0.21"
ndk-context = "0.1"
