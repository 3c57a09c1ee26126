[package]
name = "mapdat"
version = "0.1.0"
edition = "2021"
publish = false

[dependencies]
flate2 = "*"
uuid = { version = "*", features = ["v4"] }
anyhow = "*"
clap = { version = "*", features = ["derive"] }
rayon = "*"

[dev-dependencies]
fastnbt = "*"
