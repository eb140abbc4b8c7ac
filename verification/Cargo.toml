[package]
name = "udp_buffer"
version = "0.1.0"
edition = "2021"
publish = false

[dependencies]
futures = "0.3"
tokio = { version = "1", features = ["macros", "net", "rt", "rt-multi-thread", "sync", "test-util", "time"] }
tracing = "0.1"
