[package]
name = "agent_box"
version = "0.1.0"
edition = "2021"
publish = false

[dependencies]
clap = { version = "=4.6.7", features = ["derive"] }
eyre = "=0.6.14"
figment = { version = "=0.10.19", features = ["toml"] }
gix = "=0.81.0"
glob = "=0.3.4"
inquire = "=0.9.4"
jj-lib = "=0.40.0"
# No code here names kstring. gix depends on it, and 2.0.2 is held because
# later releases ask for a newer compiler than the other crates do.
kstring = "=2.0.2"
nix = { version = "=0.31.3", features = ["user"] }
serde = { version = "=1.0.229", features = ["derive"] }
shell-words = "=1.1.1"
walkdir = "=2.5.0"
