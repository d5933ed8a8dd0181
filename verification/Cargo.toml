[package]
name = "bencode"
version = "0.1.0"
edition = "2021"
publish = false

[dependencies]
itoa = "1"
log = "0.4"
num-traits = "0.2"
serde = "1"
