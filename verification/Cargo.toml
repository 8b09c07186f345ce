[package]
name = "xdr_codegen"
version = "0.1.0"
edition = "2021"
publish = false

[dependencies]
handlebars = "=6.4.4"
serde = { version = "=1.0.229", features = ["derive"] }
serde_derive = "=1.0.229"
structopt = "=0.3.26"
swc = "=80.0.1"
swc_common = "=26.0.0"
xdr-rs-serialize = "=0.3.1"
