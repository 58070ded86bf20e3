[package]
name = "conda_hoster"
version = "0.1.0"
edition = "2021"
publish = false

[dependencies]
actix-files = "=0.2.2"
actix-multipart = "=0.2.0"
actix-rt = "=1.1.1"
actix-web = { version = "=2.0.0", default-features = false }
askama = "=0.9.0"
# Not used directly. actix-http 1.0 subtracts chrono's `Duration` from a `Tm`
# of time 0.1, which holds only up to this version of chrono.
chrono = "=0.4.19"
dirs = "=2.0.2"
env_logger = "=0.7.1"
futures = "=0.3.34"
serde = "=1.0.229"
serde_derive = "=1.0.229"
toml = "=0.5.11"
