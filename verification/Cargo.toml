[package]
name = "msq"
version = "0.2.1"
edition = "2021"
publish = false

[dependencies]
byteorder = "1"
tokio = { version = "1", features = ["net", "rt-multi-thread", "macros"] }
