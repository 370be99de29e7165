[package]
name = "pi_series"
version = "0.1.0"
edition = "2021"
publish = false

[dependencies]
bigdecimal = "0.4"
dashu = "0.4"
clap = { version = "4", features = ["derive"] }
