[package]
name = "script_runtime"
version = "0.1.0"
edition = "2021"
publish = false

[dependencies]
regex = "1"
rlua = "0.17"
strip-ansi-escapes = "0.1"
