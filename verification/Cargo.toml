[package]
name = "rdf_class_viz"
version = "0.1.0"
edition = "2021"
publish = false

[dependencies]
oxigraph = "0.3"
petgraph = "*"
js-sandbox = "*"
