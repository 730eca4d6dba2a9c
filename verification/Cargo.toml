[package]
name = "react_docgen_core"
version = "0.1.0"
edition = "2021"
publish = false

[dependencies]
arc-swap = "=1.9.3"
camino = "=1.2.6"
compact_str = "=0.10.0"
dashmap = "=6.2.1"
ignore = "=0.4.34"
oxc_allocator = "=0.143.0"
oxc_ast = "=0.143.0"
oxc_ast_visit = "=0.143.0"
oxc_parser = "=0.143.0"
oxc_resolver = "=11.24.3"
oxc_span = "=0.143.0"
oxc_syntax = "=0.143.0"
rayon = "=1.12.0"
rmp-serde = "=1.3.1"
rustc-hash = "=2.1.3"
serde = { version = "=1.0.229", features = ["derive"] }
serde_json = "=1.0.154"
