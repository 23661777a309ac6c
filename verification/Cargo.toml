[package]
name = "serie_usb"
version = "0.1.0"
edition = "2021"

[dependencies]
anyhow = "1"
clap = { version = "4", features = ["derive"] }
color-print = "0.3"
ctrlc = "3"
derive_more = "0.99"
indicatif = "0.17"
rusb = "0.9"
