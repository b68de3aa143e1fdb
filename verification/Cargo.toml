[package]
name = "skyd"
version = "0.1.0"
edition = "2021"
publish = false

[dependencies]
skytable = "0.7"
powershell_script = "1"
