[package]
name = "linkal"
version = "0.1.0"
edition = "2021"
publish = false

[dependencies]
bytes = "=1.12.1"
clap = { version = "=3.2.25", features = ["derive"] }
exile = "=0.0.9"
http = "=0.2.12"
serde_json = "=1.0.154"
tokio = { version = "=1.54.1", features = ["full"] }
ureq = "=2.12.1"
warp = "=0.3.7"

[dev-dependencies]
# exile's build script is written against this release of cargo-readme
cargo-readme = "=3.2.0"
regex = "=1.13.1"
