[package]
name = "tui-journal"
version = "0.1.0"
edition = "2021"
publish = false

[dependencies]
anyhow = "1"
chrono = { version = "0.4", default-features = false, features = ["std", "clock"] }
log = "0.4"
tokio = { version = "1", features = ["fs", "rt", "macros"] }
tui = { version = "0.19", default-features = false }
