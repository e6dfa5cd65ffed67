[package]
name = "sgp30_exporter"
version = "0.1.0"
edition = "2021"
publish = false

[dependencies]
compile-time = "*"
linux-embedded-hal = "*"
prometheus-parse = "*"
prometheus_exporter = "*"
reqwest = { version = "*", default-features = false }
sgp30 = "*"
sysinfo = "*"
tokio = { version = "*", features = ["macros", "rt-multi-thread", "signal", "time"] }
