[package]
name = "serde_smile"
version = "0.1.0"
edition = "2021"
publish = false

[dependencies]
indexmap = "2"
itoa = "1"
memchr = "2"
serde = "1"
serde_bytes = "0.11"
