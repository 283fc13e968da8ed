[package]
name = "easymill"
version = "0.1.0"
edition = "2021"
publish = false

[dependencies]
gerber_parser = "*"
gerber-types = "*"
image = { version = "*", default-features = false, features = ["png"] }
lyon = "*"
nalgebra = "*"
tracing = "*"
tracing-subscriber = { version = "*", features = ["env-filter", "fmt"] }
