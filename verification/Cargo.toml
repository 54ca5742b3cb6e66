[package]
name = "cargo-insert-docs"
version = "0.1.0"
edition = "2021"
publish = false

[dependencies]
anstream = "=1.0.0"
anstyle = "=1.0.14"
arcstr = "=1.2.0"
cargo_metadata = "=0.23.1"
clap = { version = "=4.6.7", features = ["derive"] }
clap-cargo = "=0.19.0"
color-eyre = "=0.6.5"
gix = { version = "=0.90.0", default-features = false, features = ["status", "sha1"] }
indexmap = "=2.14.2"
mimalloc = "=0.1.52"
percent-encoding = "=2.3.2"
proc-macro2 = { version = "=1.0.107", features = ["span-locations"] }
rangemap = "=1.8.0"
relative-path = "=2.0.3"
rustdoc-types = "=0.61.0"
serde = { version = "=1.0.229", features = ["derive"] }
serde_json = "=1.0.154"
syn = { version = "=3.0.9", features = ["full"] }
toml = "=1.1.8"
toml_edit = "=0.25.17"
tracing = "=0.1.44"
tracing-error = "=0.2.1"
tracing-subscriber = { version = "=0.3.23", features = ["env-filter"] }
