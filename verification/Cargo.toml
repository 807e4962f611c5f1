[package]
name = "slackbot"
version = "0.1.0"
edition = "2021"
publish = false

[dependencies]
rustc-serialize = "=0.3.25"
tiny_http = "0.12"
url = "=2.5.8"
