[package]
name = "robot_fabric"
version = "0.1.0"
edition = "2021"
publish = false

[dependencies]
cobs = "*"
crc16 = "*"
serial = "*"
serialport = "*"
tungstenite = "*"
chrono = "*"
