[package]
name = "rmw_zenoh_mcap_writer"
version = "0.1.0"
edition = "2021"
publish = false

[dependencies]
zenoh = { version = "=1.10.2", default-features = false, features = ["internal", "plugins", "unstable", "transport_tcp"] }
zenoh-ext = { version = "=1.10.2", default-features = false, features = ["unstable"] }
zenoh-config = "=1.10.2"
zenoh-plugin-rest = { version = "=1.10.2", default-features = false }
chrono = "=0.4.45"
mcap = { version = "=0.23.4", default-features = false }
tokio = { version = "=1.54.1", features = ["full"] }
clap = { version = "=4.6.7", features = ["derive"] }
serde = { version = "=1.0.229", features = ["derive"] }
serde_json = "=1.0.154"
serde_yaml = "=0.9.34"
anyhow = "=1.0.104"
tracing = "=0.1.44"
futures = "=0.3.34"
once_cell = "=1.21.4"
