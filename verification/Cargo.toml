[package]
name = "ecr_inventory"
version = "0.1.0"
edition = "2021"
publish = false

[dependencies]
anyhow = "*"
aws-config = "*"
aws-sdk-ecr = "*"
clap = { version = "*", features = ["derive"] }
futures-util = "*"
globset = "*"
oci-spec = "*"
serde = { version = "*", features = ["derive"] }
serde_json = "*"
tokio = { version = "*", features = ["rt-multi-thread", "macros", "fs", "io-util"] }
