[package]
name = "pafcheck"
version = "0.1.0"
edition = "2021"
publish = false

[dependencies]
anyhow = "1"
clap = "3"
rust-htslib = "*"
thiserror = "1"
