[package]
name = "urlencoded"
version = "0.1.0"
edition = "2021"
publish = false

[dependencies]
url = "1.7"
iron = "0.6"
bodyparser = "0.8"
plugin = "0.2"
