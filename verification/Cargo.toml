[package]
name = "ltspice_raw"
version = "0.1.0"
edition = "2021"
publish = false

[dependencies]
chrono = "0.4"
dateparser = "*"
regex = "1"
tracing = "0.1"
