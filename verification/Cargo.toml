[package]
name = "puf_builder"
version = "0.1.0"
edition = "2021"
publish = false

[dependencies]
regex = "1"
string-builder = "*"
encoding_rs = "0.8"
encoding_rs_io = "0.1"
clap = "3.2.25"
