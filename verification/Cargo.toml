[package]
name = "rusty-ircd"
version = "0.3.0"
edition = "2021"
publish = false

[dependencies]
chrono = "0.4"
dns-lookup = "2"
env_logger = "0.11"
log = "0.4"
tokio = { version = "1", features = ["full"] }
tokio-native-tls = "0.3"
