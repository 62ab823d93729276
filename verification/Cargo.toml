[package]
name = "cleverdog"
version = "0.1.0"
edition = "2021"
publish = false

[dependencies]
byteorder = "1"
rmpv = "1"
clap = "2"
log = "0.4"
env_logger = "*"
native-tls = "0.2"
