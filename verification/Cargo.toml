[package]
name = "mdb_tianocore"
version = "0.1.0"
edition = "2021"
publish = false

[dependencies]
goblin = "*"
memmap = "*"
pico-args = "*"
