[package]
name = "a11y_monitor"
version = "0.1.0"
edition = "2021"
publish = false

[dependencies]
anyhow = "=1.0.104"
futures-executor = { version = "=0.3.34", features = ["thread-pool"] }
futures-util = "=0.3.34"
tracing = "=0.1.44"
zbus = "=5.19.0"
