[package]
name = "s3_util"
version = "0.1.0"
edition = "2021"
publish = false

[dependencies]
serde_json = "*"
chrono = "*"
uuid = { version = "*", features = ["v4"] }
aws-config = "*"
aws-sdk-s3 = "*"
tokio = { version = "*", features = ["rt"] }
