[package]
name = "fw_transcode"
version = "0.1.0"
edition = "2021"
publish = false

[dependencies]
flate2 = "*"
anyhow = "*"
aws-config = "*"
aws_lambda_events = "*"
aws-sdk-s3 = "*"
lambda_runtime = "*"
tokio = { version = "*", features = ["full"] }
