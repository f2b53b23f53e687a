[package]
name = "asimov-ftp-module"
version = "0.1.0"
edition = "2021"
publish = false

[dependencies]
asimov-module = { version = "=25.0.3", default-features = false, features = ["std", "cli", "tracing"] }
asimov-env = "=25.0.3"
clap = { version = "4", features = ["derive"] }
clientele = "=0.3.14"
iri-string = "=0.7.14"
jiff = "=0.2.39"
know = "=0.2.13"
suppaftp = { version = "=7.0.7", features = ["rustls"] }
thiserror = "2"
webpki-roots = "1"
