[package]
name = "loopers"
version = "0.1.0"
edition = "2021"
publish = false

[dependencies]
arrayvec = "0.7"
crossbeam-channel = "0.5"
crossbeam-queue = "0.3"
dirs = "4"
jack = "0.10"
log = "0.4"
serde_json = "1"
