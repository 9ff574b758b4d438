[package]
name = "carbide_telemetry"
version = "0.1.0"
edition = "2021"
publish = false

[dependencies]
axum = { version = "*", default-features = false, features = ["http1", "tokio"] }
hyper = { version = "1", features = ["http1", "server"] }
hyper-util = { version = "0.1", features = ["http1", "server", "service", "tokio"] }
mac_address = "1"
opentelemetry = { version = "*", features = ["metrics"] }
prometheus = "*"
socket2 = { version = "*", features = ["all"] }
tokio = { version = "1", features = ["net", "rt", "time"] }
tower = { version = "*", features = ["util"] }
tracing = "0.1"
