[package]
name = "nextsyncengine"
version = "0.1.0"
edition = "2021"
publish = false

[dependencies]
chrono = "*"
clap = "*"
colored = "*"
dirs = "*"
dotenv = "*"
flexi_logger = "*"
log = "*"
reqwest = { version = "*", default-features = false, features = ["blocking"] }
xml-rs = "*"
