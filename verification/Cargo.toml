[package]
name = "terminal_window_manager"
version = "0.1.0"
edition = "2021"
publish = false

[dependencies]
base64 = "*"
chrono = { version = "*", default-features = false, features = ["clock", "std"] }
libc = "*"
regex = "*"
serde = { version = "*", features = ["derive"] }
serde_json = "*"
uuid = { version = "*", features = ["v4"] }
sentry = { version = "*", default-features = false }
