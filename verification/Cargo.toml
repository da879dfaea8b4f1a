[package]
name = "podman_compose_mgr"
version = "0.1.0"
edition = "2021"
publish = false

[dependencies]
chrono = "*"
hostname = "*"
sha1 = "*"
hex = "*"
md-5 = "*"
base64 = "*"
regex = "*"
serde = { version = "1", features = ["derive"] }
serde_json = "1"
serde_yaml = "*"
walkdir = "*"
tempfile = "*"
time = "*"
tokio = { version = "1", features = ["rt-multi-thread", "macros"] }
aws-config = "*"
aws-credential-types = "*"
aws-sdk-s3 = "*"
azure_core = "*"
azure_identity = "*"
azure_security_keyvault_secrets = "*"
reedline = "*"
crossbeam-channel = "*"
ctrlc = "*"
