[package]
name = "rule_verify"
version = "0.1.0"
edition = "2021"
publish = false

[dependencies]
num_cpus = "1"
anyhow = "1"
clap = { version = "4", features = ["derive"] }
regex = "1"
serde = { version = "1", features = ["derive"] }
serde_yaml = "0.9"
schemars = "0.8"
ast-grep-core = "*"
ast-grep-config = "*"
