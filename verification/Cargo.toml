[package]
name = "myshell"
version = "0.1.0"
edition = "2021"
publish = false

[dependencies]
is_executable = "*"
os_pipe = "*"
rustyline = "*"
whoami = "*"
