[package]
name = "hdl_parser"
version = "0.1.0"
edition = "2021"

[dependencies]
miette = "=5.10.0"
nom = "7"
thiserror = "=1.0.69"
