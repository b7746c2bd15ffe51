[package]
name = "serial_communicator"
version = "0.1.0"
edition = "2021"
publish = false

[dependencies]
log = "0.4"
serialport = { version = "4", default-features = false }
simple_logger = "5"
tokio = { version = "1", features = ["rt", "macros", "io-util"] }
tokio-serial = { version = "5.4", default-features = false }
