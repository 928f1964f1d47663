[package]
name = "boot_6502"
version = "0.1.0"
edition = "2021"
publish = false

[dependencies]
anyhow = "1"
thiserror = "1"
tokio = { version = "1", features = ["rt-multi-thread", "macros", "time", "io-util"] }
tokio-serial = { version = "5", default-features = false }
gpio-cdev = "0.5"
rand = "0.8"
