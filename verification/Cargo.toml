[package]
name = "ab_av1"
version = "0.1.0"
edition = "2021"
publish = false

[dependencies]
anyhow = "1"
clap = { version = "4", features = ["derive", "env"] }
console = "0.15"
indicatif = "0.17"
serde = { version = "1", features = ["derive"] }
serde_json = "1"
shell-escape = "0.1"
tokio = { version = "1", features = ["rt", "process", "time", "fs", "io-util", "macros"] }
tokio-stream = "0.1"
tokio-process-stream = "*"
futures = "0.3"
nom = "7"
nom-bufreader = "*"
ordered-float = "*"
plotters = "0.3"
