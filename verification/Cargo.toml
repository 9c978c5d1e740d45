[package]
name = "mpv_tidy"
version = "0.1.0"
edition = "2021"
publish = false

[dependencies]
regex = "1"
unicode-normalization = "0.1"
serde = { version = "1", features = ["derive"] }
serde_json = "1"
thiserror = "2"
walkdir = "2"
tauri = { version = "2", default-features = false }
windows-sys = { version = "0.59", features = ["Win32_Foundation", "Win32_UI_WindowsAndMessaging"] }

[dev-dependencies]
tempfile = "3"
