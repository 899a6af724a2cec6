[package]
name = "buildxyz"
version = "0.1.0"
edition = "2021"
publish = false

[dependencies]
clap = { version = "4", features = ["derive"] }
ctrlc = "3"
error-chain = { version = "0.12", default-features = false }
fuser = { version = "0.14", default-features = false }
lazy_static = "1"
log = "0.4"
nix = { version = "0.26", default-features = false, features = ["process", "signal"] }
regex = "=1.13.1"
serde = { version = "1", features = ["derive"] }
serde_json = "1"
stderrlog = "0.5"
tempfile = "3"
thiserror = "1"
toml = "=0.8.23"
walkdir = "2"
xdg = "2"
