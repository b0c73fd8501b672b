[package]
name = "cidr_hosts"
version = "0.1.0"
edition = "2021"
publish = false

[dependencies]
ipnet = "*"
clap = { version = "*", features = ["derive"] }
