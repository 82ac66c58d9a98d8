[package]
name = "r_python"
version = "0.1.0"
edition = "2021"
publish = false

[dependencies]
indexmap = "2"
clap = { version = "4", features = ["derive"] }
