[package]
name = "termfractal"
version = "0.1.0"
edition = "2021"
publish = false

[dependencies]
ccmath = "*"
sap = "*"
