[package]
name = "bfi_lib"
version = "0.1.0"
edition = "2021"
publish = false

[dependencies]
pcap = "*"
clap = { version = "*", features = ["derive"] }
polars = { version = "*", features = ["parquet"] }
