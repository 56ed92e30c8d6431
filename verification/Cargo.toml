[package]
name = "dex_quote_engine"
version = "0.1.0"
edition = "2021"
publish = false

[dependencies]
alloy-primitives = "1"
thiserror = "2"
