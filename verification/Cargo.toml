[package]
name = "text_repository"
version = "0.1.0"
edition = "2021"
publish = false

[dependencies]
windows = { version = "=0.58.0", default-features = false, features = ["Win32_Foundation", "Win32_Security", "Win32_Security_Authorization"] }
