[package]
name = "cl-utils"
version = "0.1.0"
edition = "2021"
publish = false

[dependencies]
regex = "1"
rand = "*"
rand_distr = "*"
similar = "2"
serde_json = "1"
clap = { version = "4", features = ["derive"] }
clap_complete = "4"
gnuplot = "*"
libc = "0.2"
