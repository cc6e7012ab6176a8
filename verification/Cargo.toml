[package]
name = "iidx_on_ear"
version = "0.1.0"
edition = "2021"
publish = false

[dependencies]
anyhow = "1"
clap = { version = "4", features = ["derive"] }
lofty = "*"
ureq = "2"
