[package]
name = "zcore"
version = "0.1.0"
edition = "2021"
publish = false

[dependencies]
clap = { version = "=4.6.7", features = ["derive"] }
cortex-a = "=8.1.1"
dircpy = "=0.3.21"
dtb-walker = "=0.2.0-alpha.3"
once_cell = "=1.21.4"
os-xtask-utils = "=0.0.0"
rand = "=0.8.8"
rootcause = "=0.13.0"
spin = "=0.9.9"
tock-registers = "=0.8.1"
x86 = "=0.52.0"
