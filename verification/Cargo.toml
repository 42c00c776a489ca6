[package]
name = "shade"
version = "0.1.0"
edition = "2021"
publish = false

[dependencies]
egui = "*"
nice-plug = "*"
nice-plug-egui = "*"
