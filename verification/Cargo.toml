[package]
name = "doxidize"
version = "0.1.0"
edition = "2021"
publish = false

[dependencies]
comrak = "*"
handlebars = "*"
walkdir = "*"
notify = "*"
ctrlc = "*"
simple-server = "*"
toml_edit = "*"
serde_json = "*"
