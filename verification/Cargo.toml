[package]
name = "data_table"
version = "0.1.0"
edition = "2021"
publish = false

[dependencies]
concat-string = "*"
itertools = "*"
tui = { version = "*", default-features = false }
