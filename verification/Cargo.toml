[package]
name = "poliwave"
version = "0.1.0"
edition = "2021"
publish = false

[dependencies]
chrono = "0.4"
serde = { version = "1", features = ["derive"] }
objc2-core-location = "0.3"
objc2-core-wlan = "0.3"
windows-sys = { version = "0.59", features = ["Win32_Globalization"] }
