[package]
name = "cld_os"
version = "0.1.0"
edition = "2021"
publish = false

[dependencies]
pest = "2.7"
pest_derive = "2.7"
