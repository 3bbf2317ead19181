[package]
name = "waypoint"
version = "0.1.0"
edition = "2021"
publish = false

[dependencies]
circbuf = "*"
txml = "*"
heck = "*"
rustix = { version = "0.38", features = ["net", "event"] }
quote = "1"
proc-macro2 = "1"
syn = { version = "2", features = ["full"] }
prettyplease = "0.2"
kbvm = "*"
anyhow = "1"
