[package]
name = "wartime_penguins"
version = "0.1.0"
edition = "2021"
publish = false

[dependencies]
tiny-keccak = { version = "2", features = ["keccak"] }
cid = "0.7"
ciborium = "0.2"
ethabi = "18"
hyper = { version = "0.14", features = ["client", "http1", "tcp"] }
tokio = { version = "1", features = ["rt-multi-thread", "macros"] }
json = "0.12"
serde_json = "1"
image = { version = "0.24", default-features = false }
gif = "0.13"
rand = "0.8"
rand_chacha = "0.3"

[dev-dependencies]
hex = "0.4"
multihash = "0.14"
