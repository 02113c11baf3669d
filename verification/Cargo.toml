[package]
name = "yamark"
version = "0.1.0"
edition = "2021"
publish = false

[dependencies]
memchr = "2"
num-bigint = "0.4"
unicode-general-category = "*"
serde_json = "1"
jsonc-parser = "*"
json-five = "*"
ignore = "*"
thiserror = "2"
