[package]
name = "xtax-blob-storage"
version = "0.1.0"
edition = "2021"
publish = false

[dependencies]
async-trait = "*"
aws-sdk-s3 = { version = "*", default-features = false, features = ["rt-tokio"] }
aws-smithy-types = "*"
bytes = "*"
chrono = { version = "*", default-features = false, features = ["clock", "std"] }
thiserror = "*"
tokio = { version = "*", features = ["fs", "io-util", "macros", "rt", "sync", "time"] }
tokio-util = "*"
tracing = "*"
