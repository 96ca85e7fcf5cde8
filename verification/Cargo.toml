[package]
name = "rlisp"
version = "0.1.0"
edition = "2021"
publish = false

[dependencies]
im = "10.2.0"
regex = "1"
rand = "0.8"
termcolor = "1"
time = "0.1"
clap = "2"
