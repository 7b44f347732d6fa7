[package]
name = "rogue_creator"
version = "0.1.0"
edition = "2021"
publish = false

[dependencies]
serde_json = "1"
pancurses = "0.17"
