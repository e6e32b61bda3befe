[package]
name = "random_icon"
version = "0.1.0"
edition = "2021"

[dependencies]
image = "0.24"
rand = "0.8"
actix-web = "4"
flexi_logger = "0.29"
futures = "0.3"
log = "0.4"
uuid = { version = "1", features = ["v4"] }
