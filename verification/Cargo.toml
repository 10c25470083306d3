[package]
name = "logical_expression_parser"
version = "0.1.0"
edition = "2021"
publish = false

[dependencies]
anyhow = "1"
clap = { version = "4", features = ["derive"] }
pest = "2"
thiserror = "1"
