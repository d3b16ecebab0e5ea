[package]
name = "pointwise_gen"
version = "0.1.0"
edition = "2021"
publish = false

[dependencies]
anyhow = "=1.0.104"
atom_syndication = "=0.12.10"
chrono = { version = "=0.4.45", features = ["serde"] }
clap = { version = "=4.6.7", features = ["derive"] }
env_logger = "=0.11.11"
git2 = { version = "=0.21.0", default-features = false }
itertools = "=0.15.0"
katex = "=0.4.6"
log = "=0.4.34"
lyon_algorithms = "=1.0.21"
lyon_path = "=1.0.19"
pulldown-cmark = "=0.13.4"
rayon = "=1.12.0"
serde = { version = "=1.0.229", features = ["derive"] }
serde_json = "=1.0.151"
syntect = "=5.3.0"
tempfile = "=3.27.0"
ttf-parser = "=0.25.1"
unicode-linebreak = "=0.1.5"
unicode-segmentation = "=1.13.3"
url = "=2.5.8"
