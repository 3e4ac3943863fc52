[package]
name = "capn"
version = "0.1.0"
edition = "2021"
publish = false

[dependencies]
toml_edit = "=0.25.17"
strip-ansi-escapes = "=0.2.1"
owo-colors = "=4.4.0"
cargo_metadata = "=0.23.1"
facet = "=0.46.5"
facet-styx = { version = "=3.0.2", features = ["figue"] }
figue = "=2.0.6"
indicatif = "=0.18.6"
supports-color = "=3.0.2"
tracing = "=0.1.44"
tracing-subscriber = { version = "=0.3.23", features = ["env-filter"] }
