[package]
name = "depcheck"
version = "0.1.0"
edition = "2021"
publish = false

[dependencies]
clap = { version = "=4.6.7", features = ["derive"] }
dialoguer = "=0.11.0"
futures = "=0.3.34"
indicatif = "=0.17.11"
num_cpus = "=1.17.0"
owo-colors = "=3.5.0"
regex = "=1.13.1"
reqwest = { version = "=0.11.27", features = ["json"] }
serde = { version = "=1.0.229", features = ["derive"] }
serde_json = { version = "=1.0.154", features = ["preserve_order"] }
tabled = "=0.14.0"
tokio = { version = "=1.54.1", features = ["rt-multi-thread", "macros", "signal"] }

[dev-dependencies]
version-compare = "=0.1.1"
