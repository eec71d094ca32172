[package]
name = "avr_rewrite"
version = "0.1.0"
edition = "2021"
publish = false

[dependencies]
anyhow = "1"
clap = { version = "4", features = ["derive"] }
elf = "0.7"
rustc-demangle = "0.1"
tempfile = "3"
tokio = { version = "1", features = ["fs", "io-util", "macros", "process", "rt"] }
