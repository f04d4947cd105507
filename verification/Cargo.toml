[package]
name = "hw5800"
version = "0.1.0"
edition = "2021"
publish = false

[dependencies]
clap = "2"
paho-mqtt = "*"
rtlsdr_mt = "*"

[dev-dependencies]
crc16 = "*"
