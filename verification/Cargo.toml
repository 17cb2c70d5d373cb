[package]
name = "gel_cli"
version = "0.1.0"
edition = "2021"
publish = false

[dependencies]
colorful = "*"
urlencoding = "*"
edgeql-parser = "*"
shell-escape = "*"
concolor = "*"
is-terminal = "*"
terminal_size = "*"
