[package]
name = "agent-sessions"
version = "0.1.0"
edition = "2021"
publish = false

[dependencies]
pico-args = "0.5"
serde_json = "1"
toml = "0.9"
