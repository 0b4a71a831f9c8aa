[package]
name = "mole"
version = "0.1.0"
edition = "2021"
publish = false

[dependencies]
liquid = "=0.26.11"
grass = "=0.13.4"
pulldown-cmark = "=0.13.4"
argh = "=0.1.19"
kstring = "=2.0.0"
