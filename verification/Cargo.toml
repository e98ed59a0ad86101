[package]
name = "ben_shell"
version = "0.1.0"
edition = "2021"
publish = false

[dependencies]
glob = "*"
native-tls = "*"
simple-markdown-parser = "*"
