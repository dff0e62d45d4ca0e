[package]
name = "rustytodo"
version = "0.1.0"
edition = "2021"
publish = false

[dependencies]
anyhow = "*"
clap = { version = "*", features = ["derive"] }
csv = "*"
directories = "*"
serde = { version = "*", features = ["derive"] }
serde_json = "*"
thiserror = "*"
time = { version = "*", features = ["formatting", "parsing"] }
toml = "*"
tracing = "*"
tracing-subscriber = "*"
uuid = { version = "*", features = ["v4"] }

[dev-dependencies]
tempfile = "*"
