[package]
name = "fem_core"
version = "0.1.0"
edition = "2021"
publish = false

[dependencies]
clap = { version = "4", features = ["derive"] }
serialport = { version = "4", default-features = false }

[dev-dependencies]
postcard = { version = "1", features = ["use-std"] }
