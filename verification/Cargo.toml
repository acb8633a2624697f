[package]
name = "fbconsole"
version = "0.1.0"
edition = "2021"
publish = false

[dependencies]
ransid = "=0.2.10"
spin = "=0.12.3"
