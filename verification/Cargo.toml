[package]
name = "swaycycle"
version = "0.1.0"
edition = "2021"
publish = false

[dependencies]
swayipc = "*"
structopt = "0.3"
clap = "2"
pretty_env_logger = "*"
