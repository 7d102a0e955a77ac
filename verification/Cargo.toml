[package]
name = "netpong"
version = "0.1.0"
edition = "2021"
publish = false

[dependencies]
ggez = "0.6"
num-traits = "0.2"
quick-protobuf = "0.8"
rand = "0.8"
serialport = { version = "4", default-features = false }
structopt = "0.3"
