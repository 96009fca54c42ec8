[package]
name = "sas_scan"
version = "0.1.0"
edition = "2021"
publish = false

[dependencies]
chrono = "0.4"
getopts = "0.2"
indicatif = "0.17"
uuid = { version = "1", features = ["v4"] }
