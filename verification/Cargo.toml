[package]
name = "front_door"
version = "0.1.0"
edition = "2021"
publish = false

[dependencies]
hyper = { version = "0.14", features = ["full"] }
hyper-tls = "0.5"
tower = { version = "0.4", features = ["util"] }
tower-http = { version = "0.4", features = ["fs"] }
clap = { version = "4", features = ["derive"] }
tokio = { version = "1", features = ["full"] }
tracing = "0.1"
tracing-subscriber = "0.3"
