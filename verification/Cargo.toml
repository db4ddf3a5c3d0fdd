[package]
name = "roole"
version = "0.1.0"
edition = "2021"
publish = false

[dependencies]
indexmap = "=2.14.2"
bimap = "=0.6.3"
itertools = "=0.15.0"
serde = { version = "=1.0.229", features = ["derive"] }
clap = { version = "=4.6.7", features = ["derive"] }
aws-smt-ir = "=0.3.0"
vec1 = "=1.12.1"
num-derive = "=0.5.1"
num = "=0.4.3"
