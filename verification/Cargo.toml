[package]
name = "sedonadb"
version = "0.1.0"
edition = "2021"
publish = false

[dependencies]
geo = "=0.31.0"
geo-types = "=0.7.20"
wkt = "=0.14.0"
delaunator = "=1.1.0"
geos = "=11.3.1"
proj = "=0.31.0"
