[package]
name = "ca1d"
version = "0.1.0"
edition = "2021"
publish = false

[dependencies]
num-bigint = "*"
num-traits = "*"
clap = { version = "*", features = ["derive"] }
rand = "*"
term_size = "*"
termcolor = "*"
png = "*"
