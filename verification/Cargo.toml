[package]
name = "spotme"
version = "0.1.0"
edition = "2021"
publish = false

[dependencies]
bson = "=0.12.3"
clap = "=2.34.0"
config = "=0.9.3"
csv = "1"
env_logger = "0.6"
lazy_static = "1"
log = "0.4"
mongodb = "=0.3.10"
r2d2 = "0.8"
saphir = "=0.9.9"
serde = "1"
serde_derive = "1"
serde_json = "1"
serde_urlencoded = "=0.7.1"
serde_yaml = "0.8"
toml = "0.5"
