[package]
name = "autocon"
version = "0.1.0"
edition = "2021"
publish = false

[dependencies]
thiserror = "=1.0.69"
windows = { version = "=0.44.0", features = ["Win32_Foundation", "Win32_System_Console"] }
