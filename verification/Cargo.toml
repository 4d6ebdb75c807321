[package]
name = "quad-url"
version = "0.1.0"
edition = "2021"

[dependencies]
sapp-jsutils = "0.1"
webbrowser = "0.5"
