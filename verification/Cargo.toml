[package]
name = "dronekit"
version = "0.1.0"
edition = "2021"
publish = false

[dependencies]
bit-vec = "=0.4.4"
byteorder = "=1.5.0"
bytes = "=0.2.11"
crc16 = "=0.3.4"
eventual = "=0.1.7"
mavlink = { version = "=0.21.0", default-features = false, features = ["std", "dialect-common"] }
mio = "=0.4.4"
xml-rs = "=0.8.29"
