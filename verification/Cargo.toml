[package]
name = "cw_images"
version = "0.1.0"
edition = "2021"
publish = false

[dependencies]
aws-config = "*"
aws-sdk-cloudwatch = "*"
clap = "*"
tokio = { version = "*", features = ["macros", "rt-multi-thread", "fs"] }
tracing-subscriber = "*"
