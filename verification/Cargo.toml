[package]
name = "h3ron"
version = "0.1.0"
edition = "2021"
publish = false

[dependencies]
geo-types = "=0.6.2"
flate2 = "1"
serde = "1"
bincode = "1"
gdal = "=0.6.0"
