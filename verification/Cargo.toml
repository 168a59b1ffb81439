[package]
name = "unfurl"
version = "0.1.0"
edition = "2021"
publish = false

[dependencies]
url = "2"
addr = "0.15"
tinytemplate = "1"
serde_json = "1"
serde = { version = "1", features = ["derive"] }
serde_yaml = "0.9"
clap = { version = "4", features = ["derive"] }
tokio = { version = "1", features = ["rt-multi-thread", "net", "time", "macros"] }
futures = "0.3"
once_cell = "1"
reqwest = { version = "0.12", default-features = false }
