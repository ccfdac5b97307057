[package]
name = "grweb"
version = "0.1.0"
edition = "2021"
publish = false

[dependencies]
memchr = "2"
itoa = "1"
sha1 = "0.10"
serde = { version = "1", features = ["derive"] }
serde_json = "1"
rand = "0.8"
num_cpus = "1"
toml = "*"
log = "0.4"
env_logger = "*"
lazy_static = "1"
parking_lot = "*"
ctrlc = "*"
gorust = "*"
grorm = "*"
