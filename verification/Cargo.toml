[package]
name = "sparqlite"
version = "0.1.0"
edition = "2021"
publish = false

[dependencies]
regex = "=1.13.1"
spargebra = "=0.3.5"
oxigraph = { version = "=0.4.11", default-features = false }
oxrdfio = "=0.1.8"
rustyline = { version = "=14.0.0", features = ["derive"] }
clap = { version = "=4.6.7", features = ["derive"] }
comfy-table = "=7.2.2"
serde = "=1.0.229"
serde_derive = "=1.0.229"
serde_json = "=1.0.154"
