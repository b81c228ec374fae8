[package]
name = "futuresdr"
version = "0.1.0"
edition = "2021"
publish = false

[dependencies]
anyhow = "1"
async-io = "2"
dyn-clone = "1"
futures = "0.3"
futuresdr-types = "*"
seify = "*"
