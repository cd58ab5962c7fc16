[package]
name = "quote_server"
version = "0.1.0"
edition = "2021"
publish = false

[dependencies]
rand = "=0.8.8"
rand_distr = "=0.4.3"
rayon = "=1.12.0"
serde_json = "=1.0.154"
log = "=0.4.35"
env_logger = "=0.10.2"
structopt = "=0.3.26"
