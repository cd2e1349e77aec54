[package]
name = "smallweb"
version = "0.1.0"
edition = "2021"
publish = false

[dependencies]
regex = "1"
urlencoding = "2"
threadpool = "1"
