[package]
name = "node_sweep"
version = "0.1.0"
edition = "2021"
publish = false

[dependencies]
atty = "0.2"
termcolor = "1"
walkdir = "2"
