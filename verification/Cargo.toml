[package]
name = "sqf_project"
version = "0.1.0"
edition = "2021"
publish = false

[dependencies]
rayon = "1"
tower-lsp = "0.20"
