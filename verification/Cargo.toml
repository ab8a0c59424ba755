[package]
name = "graphql_shapes"
version = "0.1.0"
edition = "2021"
publish = false

[dependencies]
anyhow = "1"
heck = "0.3"
proc-macro2 = "1"
quote = "1"
syn = "1"
