[package]
name = "event_rule"
version = "0.1.0"
edition = "2021"
publish = false

[dependencies]
regex = "1"
serde_json = "1"
yaml-rust = "0.4"
