[package]
name = "lunabot"
version = "0.1.0"
edition = "2021"
publish = false

[dependencies]
textwrap = "0.16"
serenity = "0.11"
tokio = { version = "1", features = ["macros", "rt-multi-thread", "fs", "io-util"] }
image = { version = "0.24", default-features = false, features = ["png", "jpeg"] }
imageproc = { version = "0.23", default-features = false }
rusttype = "0.9"
