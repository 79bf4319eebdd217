[package]
name = "eunomia_exporter"
version = "0.1.0"
edition = "2021"
publish = false

[dependencies]
hyper = { version = "0.14", features = ["http1", "server", "tcp", "runtime"] }
tokio = { version = "1", features = ["rt-multi-thread", "macros", "net", "time"] }
prometheus = "0.13"
opentelemetry = "*"
