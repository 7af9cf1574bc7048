[package]
name = "cwe_checker_lib"
version = "0.1.0"
edition = "2021"
publish = false

[dependencies]
directories = "3.0"
goblin = "0.2"
nix = "0.19"
serde = { version = "1.0", features = ["derive"] }
serde_json = "1.0"
structopt = "0.3"
