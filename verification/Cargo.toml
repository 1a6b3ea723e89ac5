[package]
name = "secrets_cli"
version = "1.0.0"
edition = "2021"
publish = false

[dependencies]
anyhow = "=1.0.104"
aws-config = { version = "=1.12.0", features = ["behavior-version-latest"] }
aws-sdk-secretsmanager = "=1.120.0"
aws-sdk-sts = "=1.119.0"
aws-types = "~1.6"
clap = { version = "=4.6.7", features = ["derive"] }
console = "=0.16.6"
dialoguer = "=0.12.0"
magic-crypt = "=6.0.0"
serde_json = "=1.0.154"
thiserror = "=2.0.21"
tokio = { version = "=1.54.1", features = ["macros", "rt-multi-thread"] }
