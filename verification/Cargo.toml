[package]
name = "shibim"
version = "0.1.0"
edition = "2021"
publish = false

[dependencies]
serde_json = "=1.0.154"
thiserror = "=1.0.69"
markup = "=0.16.0"
