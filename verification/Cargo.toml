[package]
name = "bluebrick-bindings-generator"
version = "0.1.0"
edition = "2021"
publish = false

[dependencies]
itertools = "*"
num-traits = "*"
proc-macro2 = "*"
cargo_metadata = "*"
serde = { version = "*", features = ["derive"] }
serde_json = "*"
structopt = "*"
