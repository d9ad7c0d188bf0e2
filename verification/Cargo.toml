[package]
name = "dds_registry"
version = "0.1.0"
edition = "2021"
publish = false

[dependencies]
hex-literal = "=0.3.4"
num-bigint = "=0.4.8"
num-traits = "=0.2.19"
prost-types = "=0.11.9"
substreams = "=0.5.22"
substreams-database-change = "=1.3.1"
substreams-entity-change = "=1.3.2"
substreams-ethereum = "=0.9.13"
