[package]
name = "load_balancer"
version = "0.1.0"
edition = "2021"
publish = false

[dependencies]
url = "*"
nanoid = "*"
tokio = { version = "*", features = ["full"] }
hyper = { version = "*", features = ["full"] }
hyper-util = { version = "*", features = ["full"] }
http-body-util = "*"
reqwest = { version = "*", default-features = false }
config = "*"
serde = { version = "*", features = ["derive"] }
serde-aux = "*"
tracing = "*"
tracing-subscriber = { version = "*", features = ["env-filter"] }
futures-util = "*"
