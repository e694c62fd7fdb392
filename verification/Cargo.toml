[package]
name = "goto_interpreter"
version = "0.1.0"
edition = "2021"

[dependencies]
clap = "2"
