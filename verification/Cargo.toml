[package]
name = "kompact_sim"
version = "0.1.0"
edition = "2021"
publish = false

[dependencies]
protobuf = "=2.23.0"
rand = "0.8"
