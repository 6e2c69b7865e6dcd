[package]
name = "lser"
version = "0.1.0"
edition = "2021"
publish = false

[dependencies]
pdf-extract = "*"
rusqlite = "*"
tiny_http = "*"
