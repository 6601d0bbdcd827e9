[package]
name = "texspell"
version = "0.1.0"
edition = "2021"
publish = false

[dependencies]
serde_json = "=1.0.151"
reqwest = { version = "=0.13.5", default-features = false, features = ["blocking", "form"] }
subprocess = "=1.2.1"
clap = "=4.6.7"
annotate-snippets = "=0.12.16"
yansi-term = "=0.1.2"
