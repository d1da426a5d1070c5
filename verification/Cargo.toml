[package]
name = "battchart"
version = "0.1.0"
edition = "2021"
publish = false

[dependencies]
battery = "0.7"
tui = "0.19"
