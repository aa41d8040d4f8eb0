[package]
name = "aformat"
version = "0.1.0"
edition = "2021"
publish = false

[dependencies]
arrayvec = "*"
to-arraystring = "*"
proc-macro2 = "*"
quote = "*"
syn = { version = "*", features = ["full"] }
