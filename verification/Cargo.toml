[package]
name = "param_sfo"
version = "0.1.0"
edition = "2021"
publish = false

[dependencies]
anyhow = "1"
json = "0.12"
nom = "7"
thiserror = "1"
