[package]
name = "threes"
version = "0.1.0"
edition = "2021"
publish = false

[dependencies]
rand = "0.9"
rand_xoshiro = "0.7"
clap = { version = "4", features = ["derive"] }
crossterm = "*"
ctrlc = "*"
cmaes = { version = "*", default-features = false }
jiff = "*"
num_cpus = "*"
serde = { version = "1", features = ["derive"] }
sysinfo = "*"
toml = "*"
unicode-width = "*"
filedescriptor = "*"
strum = "*"
strum_macros = "*"
libc = "*"
