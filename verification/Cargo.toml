[package]
name = "kparse"
version = "0.1.0"
edition = "2021"
publish = false

[dependencies]
bytecount = "0.6"
memchr = "2"
nom = "7"
nom_locate = "4"
