[package]
name = "suigen"
version = "0.1.0"
edition = "2021"
publish = false

[dependencies]
anyhow = "1"
convert_case = "*"
genco = "*"
