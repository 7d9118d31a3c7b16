[package]
name = "axum_sentinel_monitor"
version = "0.1.0"
edition = "2021"
publish = false

[dependencies]
axum = "=0.8.9"
chrono = { version = "=0.4.45", features = ["serde"] }
netstat2 = "=0.11.2"
num_threads = "=0.1.8"
serde = { version = "=1.0.229", features = ["derive"] }
sonic-rs = "=0.5.10"
sysinfo = "0.38"
tokio = { version = "=1.54.1", features = ["full"] }
tower = { version = "=0.5.3", features = ["util"] }

[dev-dependencies]
http-body-util = "=0.1.5"
