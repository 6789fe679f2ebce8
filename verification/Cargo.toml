[package]
name = "meilisearch-lib"
version = "0.1.0"
edition = "2021"
publish = false

[dependencies]
either = "1"
fst = "0.4"
indexmap = { version = "1", features = ["serde-1"] }
lazy_static = "1"
milli = "0.1.0"
obkv = "0.2"
permissive-json-pointer = "0.2.0"
regex = "1"
serde = { version = "1", features = ["derive"] }
serde_json = { version = "1", features = ["preserve_order"] }
