[package]
name = "runebender"
version = "0.1.0"
edition = "2021"
publish = false

[dependencies]
druid = "0.5"
norad = "0.1"
log = "0.4"
