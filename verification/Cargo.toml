[package]
name = "ro11y"
version = "0.3.0"
edition = "2021"
publish = false

[dependencies]
bytes = "1"
http = "1"
libc = "0.2"
reqwest = { version = "0.12", default-features = false }
tokio = { version = "1", features = ["rt", "rt-multi-thread", "sync", "time", "macros"] }
tower = "0.5"
tracing = "0.1"
tracing-subscriber = { version = "0.3", features = ["env-filter", "fmt", "json", "registry"] }
