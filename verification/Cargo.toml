[package]
name = "domino"
version = "0.1.0"
edition = "2021"
publish = false

[dependencies]
glob = "=0.3.4"
ignore = "=0.4.34"
json-strip-comments = "=3.1.2"
oxc_allocator = "=0.96.0"
oxc_ast = "=0.96.0"
oxc_ast_visit = "=0.96.0"
oxc_parser = "=0.96.0"
oxc_semantic = "=0.96.0"
oxc_span = "=0.96.0"
oxc_resolver = "=11.24.3"
rayon = "=1.12.0"
regex = "=1.13.1"
rustc-hash = "=2.1.3"
serde = { version = "=1.0.229", features = ["derive"] }
serde_json = "=1.0.154"
serde_yaml = "=0.9.34+deprecated"
tracing = "=0.1.44"
walkdir = "=2.5.0"
