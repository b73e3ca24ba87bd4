[package]
name = "vtree"
version = "0.1.0"
edition = "2021"
publish = false

[dependencies]
arboard = "*"
crossterm = "0.25"
open = "*"
serde = { version = "1", features = ["derive"] }
serde_json = "1"
structopt = "0.3"
tui = "0.19"
