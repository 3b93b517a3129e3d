[package]
name = "graphql_resolution"
version = "0.1.0"
edition = "2021"
publish = false

[dependencies]
graphql-parser = "*"
