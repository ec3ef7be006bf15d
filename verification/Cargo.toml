[package]
name = "globe_core"
version = "0.1.0"
edition = "2021"
publish = false

[dependencies]
earcutr = "=0.5.0"
geojson = "=1.0.0"
num-traits = "*"
serde_json = "=1.0.151"
ultraviolet = "=0.10.0"
