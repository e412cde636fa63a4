[package]
name = "osm_pbf_benchmark"
version = "0.1.0"
edition = "2021"
publish = false

[dependencies]
osmpbf = "=0.3.8"
osmpbfreader = "=0.19.1"
osm-pbf-reader = { version = "=0.1.1", default-features = false, features = ["zlib", "lzma"] }
rayon = "=1.12.0"
criterion = { version = "=0.8.2", default-features = false }
