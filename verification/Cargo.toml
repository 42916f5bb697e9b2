[package]
name = "terminal3d"
version = "0.1.0"
edition = "2021"
publish = false

[dependencies]
libc = "0.2"
winapi = { version = "0.3", features = ["wincon", "processenv", "winbase", "consoleapi", "minwindef", "winnt"] }
