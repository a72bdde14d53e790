[package]
name = "token_snapshot"
version = "0.1.0"
edition = "2021"
publish = false

[dependencies]
prettier-please = "=0.3.0"
proc-macro2 = "=1.0.107"
syn = { version = "=2.0.119", features = ["full", "extra-traits", "parsing", "printing"] }
