[package]
name = "otopoiesis"
version = "0.1.0"
edition = "2021"
publish = false

[dependencies]
id-arena = "2"
string-interner = "=0.14.0"
ariadne = "=0.4.1"
clap = { version = "4", features = ["derive"] }
dirs = "5"
