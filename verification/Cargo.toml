[package]
name = "console_panel"
version = "0.1.0"
edition = "2021"
publish = false

[dependencies]
serde_json = "1"
libc = "0.2"
rustix = { version = "1", features = ["fs", "process", "pipe", "time", "event", "std"] }
gtk4 = "*"
gtk4-layer-shell = "*"
