[package]
name = "pass-gen"
version = "0.1.0"
edition = "2021"
publish = false

[dependencies]
argon2 = "=0.5.3"
base64 = "=0.22.1"
clap = { version = "=4.6.7", features = ["derive"] }
getrandom = "=0.2.17"
hmac = "=0.12.1"
pbkdf2 = { version = "=0.12.2", features = ["parallel"] }
sha2 = "=0.10.9"
libc = "=0.2.191"
open = "=5.4.5"
rpassword = "=7.5.4"
termios = "=0.3.3"
tiny_http = "=0.12.0"
arboard = { version = "=3.7.0", default-features = false }
windows-sys = { version = "=0.59.0", features = ["Win32_Foundation", "Win32_Security", "Win32_Security_Authorization", "Win32_System_SystemServices", "Win32_System_Threading"] }
