[package]
name = "referendum"
version = "0.1.0"
edition = "2021"
publish = false

[dependencies]
clap = "2"
fasthash = "*"
regex = "1"
string-builder = "*"
thiserror = "1"
