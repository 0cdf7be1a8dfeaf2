[package]
name = "strend"
version = "0.1.0"
edition = "2021"
publish = false

[dependencies]
dirs = "5"
human-repr = "1"
serde_json = "1"
ureq = "2"
url = "2"
