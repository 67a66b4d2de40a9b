[package]
name = "amq_engine"
version = "0.1.0"
edition = "2021"
publish = false

[dependencies]
amq-protocol = { version = "*", default-features = false }
cookie-factory = "*"
flume = "*"
crossbeam-channel = "*"
parking_lot = "*"
async-task = "*"
async-global-executor = "*"
