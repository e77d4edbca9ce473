[package]
name = "mdns_responder"
version = "0.1.0"
edition = "2021"
publish = false

[dependencies]
mdns-sd = "*"
ctrlc = "*"
log = "*"
env_logger = "*"

[dev-dependencies]
serde_json = "*"
