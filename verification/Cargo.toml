[package]
name = "procstar"
version = "0.1.0"
edition = "2021"
publish = false

[dependencies]
chrono = "0.4"
libc = "0.2"
serde_json = "1"
exitcode = "1"
tokio = { version = "1", features = ["rt", "macros", "signal", "sync", "time"] }
