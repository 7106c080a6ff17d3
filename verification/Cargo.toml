[package]
name = "battery_graph"
version = "0.1.0"
edition = "2021"
publish = false

[dependencies]
redis = "*"
gtk = "*"
gdk = "*"
cairo-rs = "*"

[dev-dependencies]
protobuf = "*"
