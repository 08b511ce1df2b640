[package]
name = "protostar"
version = "0.1.0"
edition = "2021"
publish = false

[dependencies]
resvg = "0.28"
sha2 = "0.10"
walkdir = "2"
dirs = "5"
nix = { version = "0.29", features = ["process"] }
tokio = { version = "1", features = ["rt", "macros", "signal"] }
stardust-xr-fusion = "*"

[dev-dependencies]
image = { version = "0.25", default-features = false, features = ["png"] }
