[package]
name = "proto_router"
version = "0.1.0"
edition = "2021"
publish = false

[dependencies]
anyhow = "=1.0.104"
clap = { version = "=4.6.7", features = ["derive"] }
prost = "=0.13.5"
prost-build = "=0.13.5"
prost-reflect = "=0.14.7"
prost-types = "=0.13.5"
tonic-build = "=0.12.3"
