[package]
name = "tes_gui_lib"
version = "0.1.0"
edition = "2021"
publish = false

[dependencies]
rustc_apfloat = "*"
serde_json = "*"
