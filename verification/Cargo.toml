[package]
name = "pass_image_api"
version = "0.1.0"
edition = "2021"
publish = false

[dependencies]
actix-web = { version = "*", default-features = false, features = ["macros"] }
bytes = "*"
futures = "*"
image = { version = "*", default-features = false, features = ["png"] }
log = "*"
opentelemetry = "*"
opentelemetry-appender-log = "*"
opentelemetry-otlp = { version = "*", features = ["grpc-tonic", "metrics", "logs"] }
opentelemetry-resource-detectors = "*"
opentelemetry_sdk = "*"
reqwest = { version = "*", default-features = false }
