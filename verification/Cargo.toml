[package]
name = "chainstate"
version = "0.1.0"
edition = "2021"
publish = false

[dependencies]
indicatif = "0.17"
itertools = "*"
leveldb = "0.8"
rusqlite = "*"
walkdir = "2"
