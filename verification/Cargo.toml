[package]
name = "mdfwob"
version = "0.1.0"
edition = "2021"
publish = false

[dependencies]
anyhow = "=1.0.104"
base64 = "=0.23.1"
clap = { version = "=4.6.7", features = ["derive"] }
fwob = "=1.14.2"
fwob-core = "=1.14.2"
fwob-v1 = "=1.14.2"
fwob-v2 = "=1.14.2"
ibapi = { version = "=5.5.0", features = ["sync"] }
jiff = { version = "=0.2.39", features = ["tzdb-bundle-always"] }
rmcp = { version = "=3.8.0", features = ["server", "macros", "transport-io"] }
schemars = "=1.2.3"
serde = { version = "=1.0.229", features = ["derive"] }
serde_json = "=1.0.154"
time = "=0.3.55"
tokio = { version = "=1.54.1", features = ["rt-multi-thread", "macros"] }
toml = "=1.1.8"
tracing = "=0.1.44"
tracing-subscriber = { version = "=0.3.23", features = ["env-filter"] }
