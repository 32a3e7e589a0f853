[package]
name = "swww"
version = "0.1.0"
edition = "2021"
publish = false

[dependencies]
image = "*"
rand = "*"
clap = { version = "*", features = ["derive"] }
serde = { version = "*", features = ["derive"] }
log = "*"
simplelog = "*"
smithay-client-toolkit = "*"
calloop = "*"
