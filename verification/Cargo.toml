[package]
name = "armrest_editor"
version = "0.1.0"
edition = "2021"
publish = false

[dependencies]
clap = "3.2.25"
once_cell = "1"
rusttype = "0.9"
serde_json = "1"
xdg = "2"
