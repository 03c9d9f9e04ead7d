[package]
name = "obscura"
version = "0.1.0"
edition = "2021"
publish = false

[dependencies]
anyhow = "=1.0.104"
ashpd = "=0.13.13"
env_logger = "=0.11.11"
gettext-rs = { version = "=0.7.7", features = ["gettext-system"] }
log = "=0.4.35"
smallvec = "=1.16.4"
