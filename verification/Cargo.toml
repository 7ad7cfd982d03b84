[package]
name = "randomwalks_lib"
version = "0.1.0"
edition = "2021"
publish = false

[dependencies]
rand = "0.8"
zstd = "0.13"
workerpool = "1.2"
statrs = "0.16"
geo = "0.27"
thiserror = "1"
anyhow = "1"
