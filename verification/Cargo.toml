[package]
name = "mf_dumper"
version = "0.1.0"
edition = "2021"
publish = false

[dependencies]
zip = "=8.6.0"
roxmltree = "=0.21.1"
xmltree = { version = "=0.12.0", features = ["attribute-sorted"] }
rayon = "=1.12.0"
anyhow = "=1.0.104"
clap = { version = "=4.6.7", features = ["derive"] }
