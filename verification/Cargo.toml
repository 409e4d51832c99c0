[package]
name = "ape_volume"
version = "0.1.0"
edition = "2021"
publish = false

[dependencies]
substreams = "*"
substreams-ethereum = "*"
substreams-entity-change = "*"
