[package]
name = "rouge"
version = "0.1.0"
edition = "2021"
publish = false

[dependencies]
rltk = "=0.8.7"
serde_json = "=1.0.154"
