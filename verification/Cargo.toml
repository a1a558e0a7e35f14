[package]
name = "root_pkg_ws"
version = "0.1.0"
edition = "2021"
publish = false

[dependencies]
cargo_metadata = "*"
clap = { version = "*", features = ["derive"] }
git2 = "*"
glob = "*"
indexmap = "*"
tempfile = "*"
