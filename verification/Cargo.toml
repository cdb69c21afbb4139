[package]
name = "rimeka"
version = "0.1.0"
edition = "2021"
publish = false

[dependencies]
anyhow = "*"
bpaf = "*"
dialoguer = "*"
dirs = "*"
glob = "*"
globset = "*"
owo-colors = "*"
path-clean = "*"
pathdiff = "*"
saphyr = "*"
shellexpand = "*"
shlex = "*"
walkdir = "*"
